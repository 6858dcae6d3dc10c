//! Reading the configuration document.
//!
//! The document is JSON text. Parsing it and looking into the parsed value
//! is left to `serde_json`; what is read from it, under which keys, and what
//! a missing or ill-typed member means, is decided here.

use crate::controlblock::SceneItem;
use vstd::prelude::*;

verus! {

/// Declares `serde_json::Value`, a parsed JSON value, as a type whose inside
/// is not looked into.
#[verifier::external_type_specification]
#[verifier::external_body]
pub struct ExJsonValue(serde_json::Value);

/// Declares `serde_json::Error`, the reason why a text is not JSON, as a
/// type whose inside is not looked into.
#[verifier::external_type_specification]
#[verifier::external_body]
pub struct ExJsonError(serde_json::Error);

/// The value that `text` parses to, if it is JSON.
pub uninterp spec fn parsed_json(text: Seq<char>) -> Option<serde_json::Value>;

/// The member of `doc` under `key`, if `doc` is an object that has one.
pub uninterp spec fn json_member(doc: serde_json::Value, key: Seq<char>) -> Option<serde_json::Value>;

/// The number that `value` is, if it is an integer that fits `u64`.
pub uninterp spec fn json_u64(value: serde_json::Value) -> Option<u64>;

/// The number that `value` is, if it is an integer that fits `i64`.
pub uninterp spec fn json_i64(value: serde_json::Value) -> Option<i64>;

/// The text that `value` is, if it is a string.
pub uninterp spec fn json_str(value: serde_json::Value) -> Option<Seq<char>>;

/// The elements of `value`, if it is an array.
pub uninterp spec fn json_items(value: serde_json::Value) -> Option<Seq<serde_json::Value>>;

/// Whether `value` is an object.
pub uninterp spec fn json_is_object(value: serde_json::Value) -> bool;

/// Calls `serde_json::from_str` for a `serde_json::Value`. The result is a
/// function of the text alone, which `parsed_json` names: the value where
/// the text is JSON, an error where it is not.
#[verifier::external_body]
fn json_from_str(text: &str) -> (res: Result<serde_json::Value, serde_json::Error>)
    ensures
        match res {
            Ok(doc) => parsed_json(text@) == Some(doc),
            Err(_) => parsed_json(text@) is None,
        },
{
    serde_json::from_str::<serde_json::Value>(text)
}

/// Calls `serde_json::Value::get` with a string key, which looks the key up
/// where the value is an object and finds nothing in any other value.
/// `json_member` names the result.
#[verifier::external_body]
fn json_get<'a>(doc: &'a serde_json::Value, key: &str) -> (member: Option<&'a serde_json::Value>)
    ensures
        match member {
            Some(value) => json_member(*doc, key@) == Some(*value),
            None => json_member(*doc, key@) is None,
        },
{
    doc.get(key)
}

/// Calls `serde_json::Value::as_u64`, which gives the number where the value
/// is an integer from 0 to `u64::MAX`. `json_u64` names the result.
#[verifier::external_body]
fn json_as_u64(value: &serde_json::Value) -> (n: Option<u64>)
    ensures
        n == json_u64(*value),
{
    value.as_u64()
}

/// Calls `serde_json::Value::as_i64`, which gives the number where the value
/// is an integer from `i64::MIN` to `i64::MAX`. `json_i64` names the result.
#[verifier::external_body]
fn json_as_i64(value: &serde_json::Value) -> (n: Option<i64>)
    ensures
        n == json_i64(*value),
{
    value.as_i64()
}

/// Calls `serde_json::Value::as_str`, which gives the text where the value is
/// a string. `json_str` names the result.
#[verifier::external_body]
fn json_as_str<'a>(value: &'a serde_json::Value) -> (text: Option<&'a str>)
    ensures
        match text {
            Some(s) => json_str(*value) == Some(s@),
            None => json_str(*value) is None,
        },
{
    value.as_str()
}

/// Calls `serde_json::Value::as_array`, which gives the elements where the
/// value is an array. `json_items` names the result.
#[verifier::external_body]
fn json_as_array<'a>(value: &'a serde_json::Value) -> (items: Option<&'a Vec<serde_json::Value>>)
    ensures
        match items {
            Some(list) => json_items(*value) == Some(list@),
            None => json_items(*value) is None,
        },
{
    value.as_array()
}

/// Calls `serde_json::Value::is_object`, which says whether the value is an
/// object, that is a map from keys to members. `json_is_object` names the
/// result.
#[verifier::external_body]
pub(crate) fn json_value_is_object(value: &serde_json::Value) -> (object: bool)
    ensures
        object == json_is_object(*value),
{
    value.is_object()
}

/// Parses `text`. Text that is not JSON gives no document.
pub fn parse_document(text: &str) -> (doc: Option<serde_json::Value>)
    ensures
        doc == parsed_json(text@),
{
    match json_from_str(text) {
        Ok(doc) => Some(doc),
        Err(_) => None,
    }
}

/// The number under `key` in `doc`, if there is a member and it fits `u64`.
pub open spec fn doc_u64(doc: serde_json::Value, key: Seq<char>) -> Option<u64> {
    match json_member(doc, key) {
        Some(value) => json_u64(value),
        None => None,
    }
}

/// Reads the number under `key` in `doc`.
pub fn read_u64(doc: &serde_json::Value, key: &str) -> (n: Option<u64>)
    ensures
        n == doc_u64(*doc, key@),
{
    match json_get(doc, key) {
        Some(value) => json_as_u64(value),
        None => None,
    }
}

/// The number under `key` in `doc`, if there is a member and it fits `i64`.
pub open spec fn doc_i64(doc: serde_json::Value, key: Seq<char>) -> Option<i64> {
    match json_member(doc, key) {
        Some(value) => json_i64(value),
        None => None,
    }
}

/// The text under `key` in `doc`, if there is a member and it is a string.
pub open spec fn doc_str(doc: serde_json::Value, key: Seq<char>) -> Option<Seq<char>> {
    match json_member(doc, key) {
        Some(value) => json_str(value),
        None => None,
    }
}

/// The elements under `key` in `doc`, if there is a member and it is an array.
pub open spec fn doc_items(doc: serde_json::Value, key: Seq<char>) -> Option<
    Seq<serde_json::Value>,
> {
    match json_member(doc, key) {
        Some(value) => json_items(value),
        None => None,
    }
}

/// `value`, or `default` where there is none.
pub open spec fn or_default<A>(value: Option<A>, default: A) -> A {
    match value {
        Some(v) => v,
        None => default,
    }
}

/// Reads the number under `key` in `doc`.
pub fn read_i64(doc: &serde_json::Value, key: &str) -> (n: Option<i64>)
    ensures
        n == doc_i64(*doc, key@),
{
    match json_get(doc, key) {
        Some(value) => json_as_i64(value),
        None => None,
    }
}

/// Reads the text under `key` in `doc`.
pub fn read_str(doc: &serde_json::Value, key: &str) -> (text: Option<String>)
    ensures
        match text {
            Some(s) => doc_str(*doc, key@) == Some(s@),
            None => doc_str(*doc, key@) is None,
        },
{
    match json_get(doc, key) {
        Some(value) => match json_as_str(value) {
            Some(s) => Some(s.to_owned()),
            None => None,
        },
        None => None,
    }
}

/// What the document says of the run: the size of the domain, the number of
/// iterations and the shape of the tile grid, each where the document has it.
#[derive(Clone, Copy, Debug, PartialEq, Eq, Structural)]
pub struct FileOptions {
    pub n: Option<u64>,
    pub niters: Option<u64>,
    pub px: Option<u64>,
    pub py: Option<u64>,
}

/// What `doc` says of the run, under the keys `-n`, `-i`, `-x` and `-y`.
pub open spec fn file_options_of(doc: serde_json::Value) -> FileOptions {
    FileOptions {
        n: doc_u64(doc, "-n"@),
        niters: doc_u64(doc, "-i"@),
        px: doc_u64(doc, "-x"@),
        py: doc_u64(doc, "-y"@),
    }
}

/// Reads what `doc` says of the run.
pub fn file_options(doc: &serde_json::Value) -> (options: FileOptions)
    ensures
        options == file_options_of(*doc),
{
    FileOptions {
        n: read_u64(doc, "-n"),
        niters: read_u64(doc, "-i"),
        px: read_u64(doc, "-x"),
        py: read_u64(doc, "-y"),
    }
}

/// One object of the scene as the document has it: its type, and a number
/// for every key that some type reads, 0 standing for a missing one.
#[derive(Clone, Debug)]
pub struct RawObject {
    pub kind: String,
    pub start: i64,
    pub duration: i64,
    pub row: i64,
    pub col: i64,
    pub period: i64,
    pub width: i64,
    pub height: i64,
}

/// One object of the scene as the document has it, the type as text.
pub struct RawObjectView {
    pub kind: Seq<char>,
    pub start: i64,
    pub duration: i64,
    pub row: i64,
    pub col: i64,
    pub period: i64,
    pub width: i64,
    pub height: i64,
}

impl View for RawObject {
    type V = RawObjectView;

    open spec fn view(&self) -> RawObjectView {
        RawObjectView {
            kind: self.kind@,
            start: self.start,
            duration: self.duration,
            row: self.row,
            col: self.col,
            period: self.period,
            width: self.width,
            height: self.height,
        }
    }
}

/// The object that `object` describes: the text under `type`, or the empty
/// text, and the numbers under the other keys, or 0.
pub open spec fn raw_object_of(object: serde_json::Value) -> RawObjectView {
    RawObjectView {
        kind: or_default(doc_str(object, "type"@), Seq::empty()),
        start: or_default(doc_i64(object, "start"@), 0),
        duration: or_default(doc_i64(object, "duration"@), 0),
        row: or_default(doc_i64(object, "row"@), 0),
        col: or_default(doc_i64(object, "col"@), 0),
        period: or_default(doc_i64(object, "period"@), 0),
        width: or_default(doc_i64(object, "width"@), 0),
        height: or_default(doc_i64(object, "height"@), 0),
    }
}

/// The scene item that an object stands for: a source where its type is
/// `sine`, an obstacle where it is `rectobstacle`, nothing for any other
/// type. Numbers are cut to the width of their field.
pub open spec fn scene_item_of(raw: RawObjectView) -> Option<SceneItem> {
    if raw.kind == "sine"@ {
        Some(
            SceneItem::Sine {
                start: raw.start as i32,
                duration: raw.duration as i32,
                row: raw.row as usize,
                col: raw.col as usize,
                period: raw.period as i32,
            },
        )
    } else if raw.kind == "rectobstacle"@ {
        Some(
            SceneItem::RectObstacle {
                row: raw.row as usize,
                col: raw.col as usize,
                width: raw.width as usize,
                height: raw.height as usize,
            },
        )
    } else {
        None
    }
}

/// Reads the number under `key` in `object`, 0 where there is none.
fn read_number(object: &serde_json::Value, key: &str) -> (n: i64)
    ensures
        n == or_default(doc_i64(*object, key@), 0),
{
    match read_i64(object, key) {
        Some(n) => n,
        None => 0,
    }
}

/// Reads one object of the scene.
pub fn read_object(object: &serde_json::Value) -> (raw: RawObject)
    ensures
        raw@ == raw_object_of(*object),
{
    let kind = match read_str(object, "type") {
        Some(kind) => kind,
        None => String::new(),
    };
    RawObject {
        kind,
        start: read_number(object, "start"),
        duration: read_number(object, "duration"),
        row: read_number(object, "row"),
        col: read_number(object, "col"),
        period: read_number(object, "period"),
        width: read_number(object, "width"),
        height: read_number(object, "height"),
    }
}

/// Turns one object of the scene into the item it stands for, if its type is
/// known.
pub fn scene_item(raw: &RawObject) -> (item: Option<SceneItem>)
    ensures
        item == scene_item_of(raw@),
{
    let sine = "sine".to_owned();
    let obstacle = "rectobstacle".to_owned();
    if raw.kind == sine {
        Some(
            SceneItem::Sine {
                start: #[verifier::truncate]
                (raw.start as i32),
                duration: #[verifier::truncate]
                (raw.duration as i32),
                row: #[verifier::truncate]
                (raw.row as usize),
                col: #[verifier::truncate]
                (raw.col as usize),
                period: #[verifier::truncate]
                (raw.period as i32),
            },
        )
    } else if raw.kind == obstacle {
        Some(
            SceneItem::RectObstacle {
                row: #[verifier::truncate]
                (raw.row as usize),
                col: #[verifier::truncate]
                (raw.col as usize),
                width: #[verifier::truncate]
                (raw.width as usize),
                height: #[verifier::truncate]
                (raw.height as usize),
            },
        )
    } else {
        None
    }
}

/// The items that a list of objects stands for, in their order, objects of
/// unknown type left out.
pub open spec fn scene_of(objects: Seq<serde_json::Value>) -> Seq<SceneItem>
    decreases objects.len(),
{
    if objects.len() == 0 {
        seq![]
    } else {
        match scene_item_of(raw_object_of(objects.last())) {
            Some(item) => scene_of(objects.drop_last()).push(item),
            None => scene_of(objects.drop_last()),
        }
    }
}

/// The types of the objects of a list that stand for no item, in their order.
pub open spec fn ignored_of(objects: Seq<serde_json::Value>) -> Seq<Seq<char>>
    decreases objects.len(),
{
    if objects.len() == 0 {
        seq![]
    } else {
        match scene_item_of(raw_object_of(objects.last())) {
            Some(item) => ignored_of(objects.drop_last()),
            None => ignored_of(objects.drop_last()).push(raw_object_of(objects.last()).kind),
        }
    }
}

/// The texts of a list of strings.
pub open spec fn texts_of(list: Seq<String>) -> Seq<Seq<char>> {
    Seq::new(list.len(), |i: int| list[i]@)
}

/// The scene of a document: its items, and the types of the objects that
/// were left out because their type is not known.
#[derive(Clone, Debug)]
pub struct Scene {
    pub items: Vec<SceneItem>,
    pub ignored: Vec<String>,
}

/// Why a run cannot be configured.
#[derive(Clone, Copy, Debug, PartialEq, Eq, Structural)]
pub enum ConfigError {
    /// There is no configuration document: the file is missing or cannot be
    /// read.
    NoDocument,
    /// The text of the document is not JSON.
    NotJson,
    /// The document is JSON, but not an object with members.
    NotAnObject,
    /// The member `objects` is not an array.
    ObjectsNotArray,
}

/// Reads the scene of `doc`: the objects of the array under `objects`, in
/// their order. A document without that member has an empty scene; one
/// whose member is no array is refused.
pub fn read_scene(doc: &serde_json::Value) -> (res: Result<Scene, ConfigError>)
    ensures
        match res {
            Ok(scene) => match json_member(*doc, "objects"@) {
                Some(member) => {
                    &&& json_items(member) is Some
                    &&& scene.items@ == scene_of(json_items(member)->0)
                    &&& texts_of(scene.ignored@) == ignored_of(json_items(member)->0)
                },
                None => scene.items@.len() == 0 && scene.ignored@.len() == 0,
            },
            Err(e) => {
                &&& e == ConfigError::ObjectsNotArray
                &&& json_member(*doc, "objects"@) matches Some(member)
                &&& json_items(member) is None
            },
        },
{
    let mut items: Vec<SceneItem> = Vec::new();
    let mut ignored: Vec<String> = Vec::new();
    let member = match json_get(doc, "objects") {
        Some(member) => member,
        None => {
            return Ok(Scene { items, ignored });
        },
    };
    let objects = match json_as_array(member) {
        Some(objects) => objects,
        None => {
            return Err(ConfigError::ObjectsNotArray);
        },
    };
    let count = objects.len();
    let mut i: usize = 0;
    while i < count
        invariant
            i <= count == objects@.len(),
            items@ == scene_of(objects@.take(i as int)),
            texts_of(ignored@) == ignored_of(objects@.take(i as int)),
        decreases count - i,
    {
        let raw = read_object(&objects[i]);
        proof {
            let now = objects@.take(i + 1);
            assert(now.drop_last() == objects@.take(i as int));
            assert(now.last() == objects@[i as int]);
        }
        match scene_item(&raw) {
            Some(item) => {
                items.push(item);
            },
            None => {
                ignored.push(raw.kind);
                proof {
                    assert(texts_of(ignored@) =~= ignored_of(objects@.take(i as int)).push(
                        raw_object_of(objects@[i as int]).kind,
                    ));
                }
            },
        }
        i = i + 1;
    }
    proof {
        assert(objects@.take(count as int) == objects@);
    }
    Ok(Scene { items, ignored })
}

} // verus!
