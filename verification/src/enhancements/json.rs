//! The scene description of a container: a JSON document that must list
//! its nodes, at the top and in every scene.
//!
//! Reading, changing and writing the document is `serde_json`'s work. What
//! is decided here is where a list of nodes is missing and must be put in.

use vstd::prelude::*;
use vstd::slice::slice_subrange;
use crate::enhancements::glb::GlbError;
use crate::enhancements::glb::JsonChunk;
use crate::enhancements::glb::find_json_chunk;
use crate::enhancements::glb::lemma_replaced_keeps_the_rest;
use crate::enhancements::glb::locate;
use crate::enhancements::glb::pad_need;
use crate::enhancements::glb::pad_to_four;
use crate::enhancements::glb::replace_json_chunk;
use crate::enhancements::glb::replaced;
use crate::enhancements::glb::rest_after;
use crate::enhancements::glb::spaces;
use crate::enhancements::map_loader::MapMesh;

verus! {

/// `serde_json::Value`: a JSON document, or a part of one. Nothing is seen
/// of what is in it but through the functions below.
#[verifier::external_type_specification]
#[verifier::external_body]
pub struct ExValue(serde_json::Value);

/// `serde_json::Error`: why a text could not be read or a document not be
/// written.
#[verifier::external_type_specification]
#[verifier::external_body]
pub struct ExJsonError(serde_json::Error);

/// The document that `serde_json::from_slice` reads from a text; `None`
/// where it reports an error.
pub uninterp spec fn json_value(text: Seq<u8>) -> Option<serde_json::Value>;

/// The text that `serde_json::to_vec` writes for a document; `None` where
/// it reports an error.
pub uninterp spec fn json_text(doc: serde_json::Value) -> Option<Seq<u8>>;

/// The document is an object: what `Value::is_object` answers.
pub uninterp spec fn json_is_object(doc: serde_json::Value) -> bool;

/// What `Value::get` finds in the document under a key: the member of an
/// object that has the key, and nothing in anything else.
pub uninterp spec fn json_member(doc: serde_json::Value, key: Seq<char>) -> Option<
    serde_json::Value,
>;

/// The items of the document where it is an array: what `Value::as_array`
/// gives.
pub uninterp spec fn json_items(doc: serde_json::Value) -> Option<Seq<serde_json::Value>>;

/// The object `doc` after `Map::insert` put an empty array under a key.
pub uninterp spec fn json_with_list(doc: serde_json::Value, key: Seq<char>) -> serde_json::Value;

/// The document with the item at `index` of the array under `key` replaced
/// by `item`.
pub uninterp spec fn json_with_item(
    doc: serde_json::Value,
    key: Seq<char>,
    index: int,
    item: serde_json::Value,
) -> serde_json::Value;

/// Reads a document with `serde_json::from_slice`.
#[verifier::external_body]
fn read_json(text: &[u8]) -> (doc: Result<serde_json::Value, serde_json::Error>)
    ensures
        match json_value(text@) {
            Some(value) => doc is Ok && doc->Ok_0 == value,
            None => doc is Err,
        },
{
    serde_json::from_slice(text)
}

/// Writes a document with `serde_json::to_vec`.
#[verifier::external_body]
fn write_json(doc: &serde_json::Value) -> (text: Result<Vec<u8>, serde_json::Error>)
    ensures
        match json_text(*doc) {
            Some(bytes) => text is Ok && text->Ok_0@ == bytes,
            None => text is Err,
        },
{
    serde_json::to_vec(doc)
}

/// `Value::is_object`.
#[verifier::external_body]
fn is_object(doc: &serde_json::Value) -> (yes: bool)
    ensures
        yes == json_is_object(*doc),
{
    doc.is_object()
}

/// `Value::get` with a string as the index. Only an object has members.
#[verifier::external_body]
fn get_member<'a>(doc: &'a serde_json::Value, key: &str) -> (member: Option<&'a serde_json::Value>)
    ensures
        match json_member(*doc, key@) {
            Some(value) => member is Some && *member->0 == value,
            None => member is None,
        },
        member is Some ==> json_is_object(*doc),
{
    doc.get(key)
}

/// `Value::as_array`.
#[verifier::external_body]
fn as_list<'a>(doc: &'a serde_json::Value) -> (list: Option<&'a Vec<serde_json::Value>>)
    ensures
        match json_items(*doc) {
            Some(items) => list is Some && list->0@ == items,
            None => list is None,
        },
{
    doc.as_array()
}

/// Puts an empty array under `key` of an object, with
/// `Value::as_object_mut` and `Map::insert`. The object has the key
/// afterwards, and what it holds under other keys stays.
#[verifier::external_body]
fn insert_list(doc: &mut serde_json::Value, key: &str)
    requires
        json_is_object(*old(doc)),
    ensures
        *final(doc) == json_with_list(*old(doc), key@),
        json_is_object(*final(doc)),
        json_member(*final(doc), key@) is Some,
        forall|other: Seq<char>|
            other != key@ ==> #[trigger] json_member(*final(doc), other) == json_member(
                *old(doc),
                other,
            ),
{
    doc.as_object_mut().unwrap().insert(key.to_string(), serde_json::Value::Array(Vec::new()));
}

/// Puts an empty array under `key` of the item at `index` of the array
/// under `list_key`, with `Value::get_mut`, `Value::as_array_mut`,
/// `Value::as_object_mut` and `Map::insert`. The array is still under
/// `list_key`, and its other items stay.
#[verifier::external_body]
fn insert_list_in_item(doc: &mut serde_json::Value, list_key: &str, index: usize, key: &str)
    requires
        index < json_list(*old(doc), list_key@).len(),
        json_is_object(json_list(*old(doc), list_key@)[index as int]),
    ensures
        *final(doc) == json_with_item(
            *old(doc),
            list_key@,
            index as int,
            json_with_list(json_list(*old(doc), list_key@)[index as int], key@),
        ),
        json_member(*final(doc), list_key@) is Some,
        json_items(json_member(*final(doc), list_key@)->0) == Some(
            json_list(*old(doc), list_key@).update(
                index as int,
                json_with_list(json_list(*old(doc), list_key@)[index as int], key@),
            ),
        ),
{
    let items = doc.get_mut(list_key).and_then(|list| list.as_array_mut()).unwrap();
    items[index].as_object_mut().unwrap().insert(
        key.to_string(),
        serde_json::Value::Array(Vec::new()),
    );
}

/// The document is an object with the given key.
pub open spec fn json_has(doc: serde_json::Value, key: Seq<char>) -> bool {
    json_member(doc, key) is Some
}

/// The items of the array that the document holds under a key; none
/// where it holds no array there.
pub open spec fn json_list(doc: serde_json::Value, key: Seq<char>) -> Seq<serde_json::Value> {
    match json_member(doc, key) {
        Some(list) => match json_items(list) {
            Some(items) => items,
            None => Seq::empty(),
        },
        None => Seq::empty(),
    }
}

/// The scenes of a document.
pub open spec fn json_scenes(doc: serde_json::Value) -> Seq<serde_json::Value> {
    json_list(doc, "scenes"@)
}

/// An object after a list of nodes was put in.
pub open spec fn json_with_nodes(doc: serde_json::Value) -> serde_json::Value {
    json_with_list(doc, "nodes"@)
}

/// The document with the scene at `index` replaced by `scene`.
pub open spec fn json_with_scene(
    doc: serde_json::Value,
    index: int,
    scene: serde_json::Value,
) -> serde_json::Value {
    json_with_item(doc, "scenes"@, index, scene)
}

/// Whether an object does not list its nodes.
fn is_missing_nodes(doc: &serde_json::Value) -> (yes: bool)
    ensures
        yes == lacks_nodes(*doc),
{
    match get_member(doc, "nodes") {
        Some(_) => false,
        None => is_object(doc),
    }
}

/// How many scenes a document has.
fn scene_count(doc: &serde_json::Value) -> (count: usize)
    ensures
        count == json_scenes(*doc).len(),
{
    match get_member(doc, "scenes") {
        Some(list) => match as_list(list) {
            Some(items) => items.len(),
            None => 0,
        },
        None => 0,
    }
}

/// Whether the scene at `index` does not list its nodes.
fn scene_is_missing_nodes(doc: &serde_json::Value, index: usize) -> (yes: bool)
    requires
        index < json_scenes(*doc).len(),
    ensures
        yes == lacks_nodes(json_scenes(*doc)[index as int]),
{
    match get_member(doc, "scenes") {
        Some(list) => match as_list(list) {
            Some(items) => is_missing_nodes(&items[index]),
            None => false,
        },
        None => false,
    }
}

/// An object that does not list its nodes.
pub open spec fn lacks_nodes(doc: serde_json::Value) -> bool {
    json_is_object(doc) && !json_has(doc, "nodes"@)
}

/// The document or one of its scenes does not list its nodes.
pub open spec fn needs_nodes(doc: serde_json::Value) -> bool {
    lacks_nodes(doc) || exists|i: int|
        0 <= i < json_scenes(doc).len() && lacks_nodes(#[trigger] json_scenes(doc)[i])
}

/// The document with a list of nodes put in at the top where it was
/// missing.
pub open spec fn with_top_nodes(doc: serde_json::Value) -> serde_json::Value {
    if lacks_nodes(doc) {
        json_with_nodes(doc)
    } else {
        doc
    }
}

/// The document with a list of nodes put into each of the first `count`
/// scenes that had none; `scenes` are the scenes as they were.
pub open spec fn with_scene_nodes(
    doc: serde_json::Value,
    scenes: Seq<serde_json::Value>,
    count: int,
) -> serde_json::Value
    decreases count,
{
    if count <= 0 {
        doc
    } else {
        let before = with_scene_nodes(doc, scenes, count - 1);
        if lacks_nodes(scenes[count - 1]) {
            json_with_scene(before, count - 1, json_with_nodes(scenes[count - 1]))
        } else {
            before
        }
    }
}

/// The document with every missing list of nodes put in: at the top, then
/// scene by scene.
pub open spec fn with_all_nodes(doc: serde_json::Value) -> serde_json::Value {
    with_scene_nodes(with_top_nodes(doc), json_scenes(doc), json_scenes(doc).len() as int)
}

/// What patching a scene description gives: an error where the text is no
/// JSON document or the patched document cannot be written; nothing where
/// no list of nodes is missing; else the text of the patched document,
/// padded with spaces to a multiple of four bytes.
pub open spec fn patched_text(text: Seq<u8>) -> Result<Option<Seq<u8>>, GlbError> {
    match json_value(text) {
        None => Err(GlbError::BadJson),
        Some(doc) => if !needs_nodes(doc) {
            Ok(None)
        } else {
            match json_text(with_all_nodes(doc)) {
                None => Err(GlbError::Unwritable),
                Some(out) => Ok(Some(out + spaces(pad_need(out.len() as int)))),
            }
        },
    }
}

/// The scenes as a patch has left them after `count` of them: those
/// before `count` list their nodes where they are objects, the others are
/// untouched.
spec fn scenes_after(scenes: Seq<serde_json::Value>, count: int) -> Seq<serde_json::Value> {
    Seq::new(
        scenes.len(),
        |i: int|
            if i < count && lacks_nodes(scenes[i]) {
                json_with_nodes(scenes[i])
            } else {
                scenes[i]
            },
    )
}

/// Puts every missing list of nodes into a scene description.
#[verifier::rlimit(40)]
pub fn patch_scene_json(text: &[u8]) -> (out: Result<Option<Vec<u8>>, GlbError>)
    ensures
        match patched_text(text@) {
            Err(e) => out == Err::<Option<Vec<u8>>, GlbError>(e),
            Ok(None) => out == Ok::<Option<Vec<u8>>, GlbError>(None),
            Ok(Some(bytes)) => out matches Ok(Some(v)) && v@ == bytes,
        },
{
    let mut doc = match read_json(text) {
        Ok(doc) => doc,
        Err(_) => {
            return Err(GlbError::BadJson);
        },
    };
    let ghost first = doc;
    let ghost scenes = json_scenes(first);
    let mut patched = false;
    if is_missing_nodes(&doc) {
        proof {
            reveal_strlit("nodes");
            reveal_strlit("scenes");
            assert("nodes"@.len() != "scenes"@.len());
        }
        insert_list(&mut doc, "nodes");
        patched = true;
    }
    let count = scene_count(&doc);
    let mut i: usize = 0;
    assert(json_scenes(doc) =~= scenes_after(scenes, 0));
    while i < count
        invariant
            0 <= i <= count,
            count == scenes.len(),
            scenes == json_scenes(first),
            doc == with_scene_nodes(with_top_nodes(first), scenes, i as int),
            json_scenes(doc) == scenes_after(scenes, i as int),
            patched <==> (lacks_nodes(first) || exists|k: int|
                0 <= k < i && lacks_nodes(#[trigger] scenes[k])),
        decreases count - i,
    {
        if scene_is_missing_nodes(&doc, i) {
            insert_list_in_item(&mut doc, "scenes", i, "nodes");
            patched = true;
        }
        i = i + 1;
        assert(json_scenes(doc) =~= scenes_after(scenes, i as int));
    }
    if !patched {
        return Ok(None);
    }
    match write_json(&doc) {
        Ok(bytes) => Ok(Some(pad_to_four(bytes))),
        Err(_) => Err(GlbError::Unwritable),
    }
}

/// What patching a container gives: the error that taking it apart or
/// patching its scene description gives; the container as it is where it
/// holds no scene description or none that lacks a list of nodes; else
/// the container with the patched scene description in place of the old
/// one, unless that is too long for a chunk.
pub open spec fn patched_container(bytes: Seq<u8>) -> Result<Option<Seq<u8>>, GlbError> {
    match locate(bytes) {
        Err(e) => Err(e),
        Ok(None) => Ok(None),
        Ok(Some(chunk)) => match patched_text(
            bytes.subrange(chunk.data_start(), chunk.data_end()),
        ) {
            Err(e) => Err(e),
            Ok(None) => Ok(None),
            Ok(Some(json)) => if json.len() > u32::MAX {
                Err(GlbError::Unwritable)
            } else {
                Ok(Some(replaced(bytes, chunk, json)))
            },
        },
    }
}

impl MapMesh {
    /// Makes sure that the scene description of a container lists its
    /// nodes, at the top and in every scene, and says whether the bytes
    /// were changed for that. On an error the bytes are left as they were.
    #[verifier::rlimit(40)]
    pub fn patch_glb_json(bytes: &mut Vec<u8>) -> (changed: Result<bool, GlbError>)
        ensures
            match patched_container(old(bytes)@) {
                Err(e) => changed == Err::<bool, GlbError>(e) && final(bytes)@ == old(bytes)@,
                Ok(None) => changed == Ok::<bool, GlbError>(false) && final(bytes)@ == old(
                    bytes,
                )@,
                Ok(Some(out)) => changed == Ok::<bool, GlbError>(true) && final(bytes)@ == out,
            },
    {
        let chunk = match find_json_chunk(bytes.as_slice()) {
            Ok(Some(chunk)) => chunk,
            Ok(None) => {
                return Ok(false);
            },
            Err(e) => {
                return Err(e);
            },
        };
        let n = bytes.len();
        assert(chunk.data_end() <= n);
        let start = chunk.header + 8;
        let end = start + chunk.length as usize;
        let json = match patch_scene_json(slice_subrange(bytes.as_slice(), start, end)) {
            Ok(Some(json)) => json,
            Ok(None) => {
                return Ok(false);
            },
            Err(e) => {
                return Err(e);
            },
        };
        if json.len() > u32::MAX as usize {
            return Err(GlbError::Unwritable);
        }
        let out = replace_json_chunk(bytes.as_slice(), &chunk, json.as_slice());
        *bytes = out;
        Ok(true)
    }
}

/// A patched scene description fills whole groups of four bytes.
pub proof fn lemma_patched_text_is_padded(text: Seq<u8>)
    requires
        patched_text(text) matches Ok(Some(_)),
    ensures
        patched_text(text)->Ok_0->0.len() % 4 == 0,
{
    let doc = json_value(text)->0;
    let written = json_text(with_all_nodes(doc))->0;
    assert(patched_text(text)->Ok_0->0 == written + spaces(pad_need(written.len() as int)));
}

/// Patching a container loses nothing of what follows the scene
/// description: where the scene description at `chunk` is patched to
/// `json`, the patched container holds `json` as its scene description
/// where the old one was, and after it, byte for byte, what followed the
/// old one. Magic number and version stay too.
pub proof fn lemma_patch_keeps_the_rest(bytes: Seq<u8>, chunk: JsonChunk, json: Seq<u8>)
    requires
        bytes.len() <= usize::MAX,
        locate(bytes) == Ok::<Option<JsonChunk>, GlbError>(Some(chunk)),
        patched_text(bytes.subrange(chunk.data_start(), chunk.data_end())) == Ok::<
            Option<Seq<u8>>,
            GlbError,
        >(Some(json)),
        json.len() <= u32::MAX,
    ensures
        ({
            let out = replaced(bytes, chunk, json);
            let moved = JsonChunk { header: chunk.header, length: json.len() as u32 };
            &&& patched_container(bytes) == Ok::<Option<Seq<u8>>, GlbError>(Some(out))
            &&& locate(out) == Ok::<Option<JsonChunk>, GlbError>(Some(moved))
            &&& out.subrange(moved.data_start(), moved.data_end()) == json
            &&& rest_after(out, moved) == rest_after(bytes, chunk)
            &&& out.subrange(0, 8) == bytes.subrange(0, 8)
        }),
{
    lemma_patched_text_is_padded(bytes.subrange(chunk.data_start(), chunk.data_end()));
    lemma_replaced_keeps_the_rest(bytes, chunk, json);
}

} // verus!
