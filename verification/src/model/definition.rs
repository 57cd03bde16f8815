//! What a tokenizer's definition must not hold.
//!
//! A definition is a JSON text. On seven things the tokenizer backend gives
//! up where it should fail. Building a tokenizer, it counts on the decoder
//! to be read, which a text that breaks off is not, on a normalizer of the
//! kind `Precompiled` to be sound, and on the two parts of every merge to
//! be no longer together than the longest token of the vocabulary.
//! Encoding, a `TemplateProcessing` counts on each special token of its
//! templates to be among its special tokens, and on the template for a
//! single text to ask for no second text, and a `FixedLength` on its
//! length not to be zero. Decoding, a decoder of the kind
//! `Strip` that cuts at the end of a token counts on every token to have
//! something to cut, and one of the kind `BPEDecoder` on there being a
//! token at all.
//!
//! One thing more makes a tokenizer differ from another of the same
//! definition: where a vocabulary gives one id to two tokens, which of them
//! the id decodes to is left to the order in which a hash map is walked.
//!
//! A definition is therefore screened before a tokenizer is built from it.
//! It must read as JSON, and no object in it, at whatever depth, may be a
//! `Precompiled`, a `BPEDecoder`, a `Strip` whose `stop` is anything but
//! the number zero, a `FixedLength` whose `length` is anything but a
//! number above zero, a `TemplateProcessing` whose templates cannot be
//! applied, or hold merges that are too long for its vocabulary, or under
//! `vocab` an object in which two tokens share an id. Such a definition is
//! turned down though the backend might have lived with it.

use vstd::prelude::*;
use vstd::string::StringSliceAdditionalSpecFns;
use std::collections::HashSet;
use crate::text::same_text;

verus! {

/// A JSON value of `serde_json`.
#[verifier::external_type_specification]
#[verifier::external_body]
pub struct ExJsonValue(serde_json::Value);

/// A JSON value as far as the screening looks into it.
pub enum JsonTree {
    /// A whole number from 0 up to the largest that 64 bits hold.
    Count(u64),
    /// A text.
    Text(String),
    /// A list of values.
    List(Vec<JsonTree>),
    /// An object: its fields, each key once.
    Object(Vec<JsonField>),
    /// Anything else: `null`, a truth value, any other number.
    Other,
}

/// One field of an object.
pub struct JsonField {
    pub key: String,
    pub value: JsonTree,
}

/// What `serde_json::from_slice` reads out of `bytes` as a value; `None`
/// where they are no JSON text.
pub uninterp spec fn json_tree(bytes: Seq<u8>) -> Option<JsonTree>;

/// Tells the variants of `serde_json::Value` apart and hands the value on
/// in the library's own type: texts, lists and objects copied, a number as
/// `Number::as_u64` gives it, all else as `Other`.
#[verifier::external_body]
fn plain_json(value: &serde_json::Value) -> JsonTree {
    match value {
        serde_json::Value::Number(n) => n.as_u64().map_or(JsonTree::Other, JsonTree::Count),
        serde_json::Value::String(s) => JsonTree::Text(s.clone()),
        serde_json::Value::Array(items) => JsonTree::List(items.iter().map(plain_json).collect()),
        serde_json::Value::Object(fields) => JsonTree::Object(
            fields.iter().map(|(k, v)| JsonField { key: k.clone(), value: plain_json(v) }).collect(),
        ),
        _ => JsonTree::Other,
    }
}

/// Calls `serde_json::from_slice` for a `serde_json::Value`. What it reads
/// is a function of the bytes.
#[verifier::external_body]
fn read_json(bytes: &[u8]) -> (r: Option<JsonTree>)
    ensures
        r == json_tree(bytes@),
{
    serde_json::from_slice::<serde_json::Value>(bytes).ok().map(|value| plain_json(&value))
}

/// Among `fields`, one named `type` holds the text `kind`.
pub open spec fn names_kind(fields: Seq<JsonField>, kind: Seq<char>) -> bool {
    exists|i: int|
        0 <= i < fields.len() && (#[trigger] fields[i]).key@ == "type"@ && (
        fields[i].value matches JsonTree::Text(t) && t@ == kind)
}

/// Among `fields`, one named `stop` holds something else than the number
/// zero.
pub open spec fn stops_late(fields: Seq<JsonField>) -> bool {
    exists|i: int|
        0 <= i < fields.len() && (#[trigger] fields[i]).key@ == "stop"@ && !(
        fields[i].value matches JsonTree::Count(n) && n == 0)
}

/// The value of the first of `fields` that is named `key`.
pub open spec fn field_of(fields: Seq<JsonField>, key: Seq<char>) -> Option<JsonTree>
    decreases fields.len(),
{
    if fields.len() == 0 {
        None
    } else if fields.first().key@ == key {
        Some(fields.first().value)
    } else {
        field_of(fields.drop_first(), key)
    }
}

/// The text that `value` holds under `id`, where it is an object that
/// holds a text there.
pub open spec fn id_of(value: JsonTree) -> Option<Seq<char>> {
    match value {
        JsonTree::Object(inner) => match field_of(inner@, "id"@) {
            Some(JsonTree::Text(t)) => Some(t@),
            _ => None,
        },
        _ => None,
    }
}

/// One part of a piece of a template can be applied: a special token is
/// one of `tokens`, and in a template for a single text (`alone`) a
/// sequence is the first.
pub open spec fn part_applies(part: JsonField, tokens: Seq<JsonField>, alone: bool) -> bool {
    if part.key@ == "SpecialToken"@ {
        id_of(part.value) matches Some(id) && field_of(tokens, id) is Some
    } else if part.key@ == "Sequence"@ {
        !alone || id_of(part.value) == Some("A"@)
    } else {
        true
    }
}

/// A piece of a template can be applied: it is an object, and each of its
/// parts can.
pub open spec fn piece_applies(piece: JsonTree, tokens: Seq<JsonField>, alone: bool) -> bool {
    piece matches JsonTree::Object(parts) && forall|i: int|
        0 <= i < parts@.len() ==> part_applies(#[trigger] parts@[i], tokens, alone)
}

/// A template can be applied: it is there, it is a list, and each of its
/// pieces can be applied.
pub open spec fn template_applies(
    template: Option<JsonTree>,
    tokens: Seq<JsonField>,
    alone: bool,
) -> bool {
    template matches Some(JsonTree::List(pieces)) && forall|i: int|
        0 <= i < pieces@.len() ==> piece_applies(#[trigger] pieces@[i], tokens, alone)
}

/// The templates of a `TemplateProcessing` with these fields can be
/// applied: its special tokens are an object, and the template for a
/// single text and the one for a pair can be applied with them.
pub open spec fn processing_applies(fields: Seq<JsonField>) -> bool {
    field_of(fields, "special_tokens"@) matches Some(JsonTree::Object(tokens)) && template_applies(
        field_of(fields, "single"@),
        tokens@,
        true,
    ) && template_applies(field_of(fields, "pair"@), tokens@, false)
}

/// Each of `entries` holds a whole number, and no two hold the same.
pub open spec fn ids_distinct(entries: Seq<JsonField>) -> bool {
    &&& forall|i: int| 0 <= i < entries.len() ==> (#[trigger] entries[i]).value is Count
    &&& forall|i: int, j: int|
        0 <= i < j < entries.len() ==> (#[trigger] entries[i]).value->Count_0 != (
        #[trigger] entries[j]).value->Count_0
}

/// Under `vocab` these fields hold an object in which two tokens share an
/// id, or a token has none.
pub open spec fn vocab_clashes(fields: Seq<JsonField>) -> bool {
    field_of(fields, "vocab"@) matches Some(JsonTree::Object(entries)) && !ids_distinct(entries@)
}

/// The number of bytes that `text` takes.
pub open spec fn byte_len(text: Seq<char>) -> nat {
    vstd::utf8::encode_utf8(text).len()
}

/// The number of bytes of the longest key among `entries`.
pub open spec fn longest_key(entries: Seq<JsonField>) -> nat
    decreases entries.len(),
{
    if entries.len() == 0 {
        0
    } else {
        let before = longest_key(entries.drop_last());
        let last = byte_len(entries.last().key@);
        if last > before {
            last
        } else {
            before
        }
    }
}

/// The number of bytes of the prefix that these fields give to tokens that
/// continue a word; none where they give no such text.
pub open spec fn prefix_len(fields: Seq<JsonField>) -> nat {
    match field_of(fields, "continuing_subword_prefix"@) {
        Some(JsonTree::Text(t)) => byte_len(t@),
        _ => 0,
    }
}

/// A merge is no longer than the longest token: given as a pair of texts,
/// the second holds the prefix and the first with the rest of the second
/// takes no more than `longest` bytes; given as one text, with a blank
/// between its parts, there is no prefix and the text less the blank takes
/// no more.
pub open spec fn merge_fits(merge: JsonTree, prefix: nat, longest: nat) -> bool {
    match merge {
        JsonTree::Text(line) => prefix == 0 && byte_len(line@) <= longest + 1,
        JsonTree::List(parts) => parts@.len() == 2 && (parts@[0] matches JsonTree::Text(a) && (
        parts@[1] matches JsonTree::Text(b) && byte_len(b@) >= prefix && byte_len(a@) + byte_len(
            b@,
        ) - prefix <= longest)),
        _ => false,
    }
}

/// Where these fields hold merges, they are a list, the vocabulary beside
/// them is an object, and every merge is no longer than its longest token.
pub open spec fn merges_fit(fields: Seq<JsonField>) -> bool {
    match field_of(fields, "merges"@) {
        None => true,
        Some(JsonTree::List(merges)) => field_of(fields, "vocab"@) matches Some(
            JsonTree::Object(entries),
        ) && forall|i: int|
            0 <= i < merges@.len() ==> merge_fits(
                #[trigger] merges@[i],
                prefix_len(fields),
                longest_key(entries@),
            ),
        Some(_) => false,
    }
}

/// These fields give a length that is no whole number above zero.
pub open spec fn no_length(fields: Seq<JsonField>) -> bool {
    match field_of(fields, "length"@) {
        None => false,
        Some(JsonTree::Count(n)) => n == 0,
        Some(_) => true,
    }
}

/// An object with these fields is one that the backend gives up on, or
/// one that it does not read the same way twice: a `Precompiled`, a
/// `BPEDecoder`, a `Strip` that cuts at the end, a `FixedLength` without a
/// length, a `TemplateProcessing` whose templates cannot be applied,
/// merges that are too long, or a vocabulary in which two tokens share an
/// id.
pub open spec fn refused(fields: Seq<JsonField>) -> bool {
    ||| names_kind(fields, "Precompiled"@)
    ||| names_kind(fields, "BPEDecoder"@)
    ||| (names_kind(fields, "FixedLength"@) && no_length(fields))
    ||| (names_kind(fields, "Strip"@) && stops_late(fields))
    ||| (names_kind(fields, "TemplateProcessing"@) && !processing_applies(fields))
    ||| !merges_fit(fields)
    ||| vocab_clashes(fields)
}

impl JsonTree {
    /// Somewhere in the value, at whatever depth, is an object that the
    /// backend gives up on.
    pub open spec fn risky(self) -> bool
        decreases self,
    {
        match self {
            JsonTree::List(items) => exists|i: int|
                0 <= i < items@.len() && (#[trigger] items@[i]).risky(),
            JsonTree::Object(fields) => refused(fields@) || exists|i: int|
                0 <= i < fields@.len() && (#[trigger] fields@[i]).value.risky(),
            _ => false,
        }
    }
}

/// A tokenizer may be built from `definition`: it is a JSON text without
/// an object that the backend gives up on.
pub open spec fn screened(definition: Seq<u8>) -> bool {
    json_tree(definition) matches Some(tree) && !tree.risky()
}

fn kind_named(fields: &Vec<JsonField>, kind: &str) -> (found: bool)
    ensures
        found == names_kind(fields@, kind@),
{
    let mut i: usize = 0;
    while i < fields.len()
        invariant
            i <= fields@.len(),
            forall|j: int|
                0 <= j < i ==> !((#[trigger] fields@[j]).key@ == "type"@ && (
                fields@[j].value matches JsonTree::Text(t) && t@ == kind@)),
        decreases fields@.len() - i,
    {
        if same_text(fields[i].key.as_str(), "type") {
            match &fields[i].value {
                JsonTree::Text(t) => {
                    if same_text(t.as_str(), kind) {
                        return true;
                    }
                },
                _ => {},
            }
        }
        i += 1;
    }
    false
}

fn late_stop(fields: &Vec<JsonField>) -> (found: bool)
    ensures
        found == stops_late(fields@),
{
    let mut i: usize = 0;
    while i < fields.len()
        invariant
            i <= fields@.len(),
            forall|j: int|
                0 <= j < i ==> !((#[trigger] fields@[j]).key@ == "stop"@ && !(
                fields@[j].value matches JsonTree::Count(n) && n == 0)),
        decreases fields@.len() - i,
    {
        if same_text(fields[i].key.as_str(), "stop") {
            match &fields[i].value {
                JsonTree::Count(0) => {},
                _ => {
                    return true;
                },
            }
        }
        i += 1;
    }
    false
}

/// The value of the first of `fields` that is named `key`.
fn find_field<'a>(fields: &'a Vec<JsonField>, key: &str) -> (found: Option<&'a JsonTree>)
    ensures
        match found {
            Some(value) => field_of(fields@, key@) == Some(*value),
            None => field_of(fields@, key@) is None,
        },
{
    let mut i: usize = 0;
    proof {
        assert(fields@.skip(0) =~= fields@);
    }
    while i < fields.len()
        invariant
            i <= fields@.len(),
            field_of(fields@, key@) == field_of(fields@.skip(i as int), key@),
        decreases fields@.len() - i,
    {
        proof {
            assert(fields@.skip(i as int).first() == fields@[i as int]);
            assert(fields@.skip(i as int).drop_first() =~= fields@.skip(i + 1));
        }
        if same_text(fields[i].key.as_str(), key) {
            return Some(&fields[i].value);
        }
        i += 1;
    }
    None
}

/// The text that `value` holds under `id`.
fn find_id<'a>(value: &'a JsonTree) -> (found: Option<&'a String>)
    ensures
        match found {
            Some(text) => id_of(*value) == Some(text@),
            None => id_of(*value) is None,
        },
{
    match value {
        JsonTree::Object(inner) => match find_field(inner, "id") {
            Some(JsonTree::Text(t)) => Some(t),
            _ => None,
        },
        _ => None,
    }
}

fn part_is_sound(part: &JsonField, tokens: &Vec<JsonField>, alone: bool) -> (ok: bool)
    ensures
        ok == part_applies(*part, tokens@, alone),
{
    if same_text(part.key.as_str(), "SpecialToken") {
        match find_id(&part.value) {
            Some(id) => find_field(tokens, id.as_str()).is_some(),
            None => false,
        }
    } else if same_text(part.key.as_str(), "Sequence") {
        if alone {
            match find_id(&part.value) {
                Some(id) => same_text(id.as_str(), "A"),
                None => false,
            }
        } else {
            true
        }
    } else {
        true
    }
}

fn piece_is_sound(piece: &JsonTree, tokens: &Vec<JsonField>, alone: bool) -> (ok: bool)
    ensures
        ok == piece_applies(*piece, tokens@, alone),
{
    match piece {
        JsonTree::Object(parts) => {
            let mut i: usize = 0;
            while i < parts.len()
                invariant
                    i <= parts@.len(),
                    *piece == JsonTree::Object(*parts),
                    forall|j: int|
                        0 <= j < i ==> part_applies(#[trigger] parts@[j], tokens@, alone),
                decreases parts@.len() - i,
            {
                if !part_is_sound(&parts[i], tokens, alone) {
                    proof {
                        assert(!part_applies(parts@[i as int], tokens@, alone));
                        assert(*piece is Object);
                        assert(piece->Object_0 == *parts);
                        if piece_applies(*piece, tokens@, alone) {
                            assert(part_applies(piece->Object_0@[i as int], tokens@, alone));
                        }
                    }
                    return false;
                }
                i += 1;
            }
            true
        },
        _ => false,
    }
}

fn template_is_sound(template: Option<&JsonTree>, tokens: &Vec<JsonField>, alone: bool) -> (ok:
    bool)
    ensures
        ok == template_applies(
            match template {
                Some(t) => Some(*t),
                None => None,
            },
            tokens@,
            alone,
        ),
{
    match template {
        Some(JsonTree::List(pieces)) => {
            let mut i: usize = 0;
            while i < pieces.len()
                invariant
                    i <= pieces@.len(),
                    template matches Some(list) && *list == JsonTree::List(*pieces),
                    forall|j: int|
                        0 <= j < i ==> piece_applies(#[trigger] pieces@[j], tokens@, alone),
                decreases pieces@.len() - i,
            {
                if !piece_is_sound(&pieces[i], tokens, alone) {
                    proof {
                        assert(!piece_applies(pieces@[i as int], tokens@, alone));
                        let list = template->Some_0;
                        assert(*list is List);
                        assert(list->List_0 == *pieces);
                        if template_applies(Some(*list), tokens@, alone) {
                            assert(piece_applies(list->List_0@[i as int], tokens@, alone));
                        }
                    }
                    return false;
                }
                i += 1;
            }
            true
        },
        _ => false,
    }
}

fn processing_is_sound(fields: &Vec<JsonField>) -> (ok: bool)
    ensures
        ok == processing_applies(fields@),
{
    match find_field(fields, "special_tokens") {
        Some(JsonTree::Object(tokens)) => {
            template_is_sound(find_field(fields, "single"), tokens, true) && template_is_sound(
                find_field(fields, "pair"),
                tokens,
                false,
            )
        },
        _ => false,
    }
}

/// Whether each of `entries` holds a whole number, and no two the same.
fn distinct_ids(entries: &Vec<JsonField>) -> (ok: bool)
    ensures
        ok == ids_distinct(entries@),
{
    let mut seen: HashSet<u64> = HashSet::new();
    let mut i: usize = 0;
    while i < entries.len()
        invariant
            i <= entries@.len(),
            forall|j: int| 0 <= j < i ==> (#[trigger] entries@[j]).value is Count,
            forall|a: int, b: int|
                0 <= a < b < i ==> (#[trigger] entries@[a]).value->Count_0 != (
                #[trigger] entries@[b]).value->Count_0,
            forall|n: u64|
                seen@.contains(n) <==> exists|a: int|
                    0 <= a < i && (#[trigger] entries@[a]).value->Count_0 == n,
        decreases entries@.len() - i,
    {
        match &entries[i].value {
            JsonTree::Count(n) => {
                let ghost before = seen@;
                let fresh = seen.insert(*n);
                if !fresh {
                    proof {
                        let a = choose|a: int|
                            0 <= a < i && (#[trigger] entries@[a]).value->Count_0 == *n;
                        assert(entries@[a].value->Count_0 == entries@[i as int].value->Count_0);
                    }
                    return false;
                }
                proof {
                    assert forall|m: u64| seen@.contains(m) <==> exists|a: int|
                        0 <= a < i + 1 && (#[trigger] entries@[a]).value->Count_0 == m by {
                        if seen@.contains(m) {
                            if m == *n {
                                assert(entries@[i as int].value->Count_0 == m);
                            } else {
                                assert(before.contains(m));
                            }
                        }
                        if exists|a: int|
                            0 <= a < i + 1 && (#[trigger] entries@[a]).value->Count_0 == m {
                            let a = choose|a: int|
                                0 <= a < i + 1 && (#[trigger] entries@[a]).value->Count_0 == m;
                            if a < i {
                                assert(before.contains(m));
                            }
                        }
                    }
                }
            },
            _ => {
                return false;
            },
        }
        i += 1;
    }
    true
}

/// The number of bytes that `text` takes.
fn bytes_of(text: &String) -> (n: usize)
    ensures
        n == byte_len(text@),
{
    let s = text.as_str();
    proof {
        assert(s.spec_bytes() == vstd::utf8::encode_utf8(s@));
    }
    s.as_bytes().len()
}

fn key_bytes(entries: &Vec<JsonField>) -> (longest: usize)
    ensures
        longest == longest_key(entries@),
{
    let mut longest: usize = 0;
    let mut i: usize = 0;
    proof {
        assert(entries@.take(0) =~= Seq::<JsonField>::empty());
    }
    while i < entries.len()
        invariant
            i <= entries@.len(),
            longest == longest_key(entries@.take(i as int)),
        decreases entries@.len() - i,
    {
        let len = bytes_of(&entries[i].key);
        proof {
            assert(entries@.take(i + 1).drop_last() =~= entries@.take(i as int));
            assert(entries@.take(i + 1).last() == entries@[i as int]);
        }
        if len > longest {
            longest = len;
        }
        i += 1;
    }
    proof {
        assert(entries@.take(entries@.len() as int) =~= entries@);
    }
    longest
}

fn merge_is_short(merge: &JsonTree, prefix: usize, longest: usize) -> (ok: bool)
    ensures
        ok == merge_fits(*merge, prefix as nat, longest as nat),
{
    match merge {
        JsonTree::Text(line) => {
            let len = bytes_of(line);
            prefix == 0 && (len <= longest || len - 1 == longest)
        },
        JsonTree::List(parts) => {
            if parts.len() != 2 {
                return false;
            }
            match (&parts[0], &parts[1]) {
                (JsonTree::Text(a), JsonTree::Text(b)) => {
                    let first = bytes_of(a);
                    let second = bytes_of(b);
                    second >= prefix && first <= longest && second - prefix <= longest - first
                },
                _ => false,
            }
        },
        _ => false,
    }
}

fn short_merges(fields: &Vec<JsonField>) -> (ok: bool)
    ensures
        ok == merges_fit(fields@),
{
    match find_field(fields, "merges") {
        None => true,
        Some(JsonTree::List(merges)) => {
            let entries = match find_field(fields, "vocab") {
                Some(JsonTree::Object(entries)) => entries,
                _ => {
                    return false;
                },
            };
            let prefix: usize = match find_field(fields, "continuing_subword_prefix") {
                Some(JsonTree::Text(t)) => bytes_of(t),
                _ => 0,
            };
            let longest = key_bytes(entries);
            let mut i: usize = 0;
            while i < merges.len()
                invariant
                    i <= merges@.len(),
                    prefix == prefix_len(fields@),
                    longest == longest_key(entries@),
                    field_of(fields@, "merges"@) == Some(JsonTree::List(*merges)),
                    field_of(fields@, "vocab"@) == Some(JsonTree::Object(*entries)),
                    forall|j: int|
                        0 <= j < i ==> merge_fits(
                            #[trigger] merges@[j],
                            prefix as nat,
                            longest as nat,
                        ),
                decreases merges@.len() - i,
            {
                if !merge_is_short(&merges[i], prefix, longest) {
                    proof {
                        assert(!merge_fits(merges@[i as int], prefix as nat, longest as nat));
                        let listed = field_of(fields@, "merges"@)->Some_0;
                        assert(listed is List);
                        assert(listed->List_0 == *merges);
                        let held = field_of(fields@, "vocab"@)->Some_0;
                        assert(held->Object_0 == *entries);
                        if merges_fit(fields@) {
                            assert(merge_fits(
                                listed->List_0@[i as int],
                                prefix_len(fields@),
                                longest_key(held->Object_0@),
                            ));
                        }
                    }
                    return false;
                }
                i += 1;
            }
            true
        },
        Some(_) => false,
    }
}

fn lacks_length(fields: &Vec<JsonField>) -> (lacks: bool)
    ensures
        lacks == no_length(fields@),
{
    match find_field(fields, "length") {
        None => false,
        Some(JsonTree::Count(n)) => *n == 0,
        Some(_) => true,
    }
}

fn clashing_vocab(fields: &Vec<JsonField>) -> (clash: bool)
    ensures
        clash == vocab_clashes(fields@),
{
    match find_field(fields, "vocab") {
        Some(JsonTree::Object(entries)) => !distinct_ids(entries),
        _ => false,
    }
}

/// Whether the backend gives up on something in `tree`.
pub fn is_risky(tree: &JsonTree) -> (risky: bool)
    ensures
        risky == tree.risky(),
    decreases tree,
{
    match tree {
        JsonTree::List(items) => {
            let mut i: usize = 0;
            while i < items.len()
                invariant
                    i <= items@.len(),
                    *tree == JsonTree::List(*items),
                    forall|j: int| 0 <= j < i ==> !(#[trigger] items@[j]).risky(),
                decreases items@.len() - i,
            {
                proof {
                    assert(*tree is List);
                    assert(tree->List_0 == *items);
                    assert(decreases_to!(*tree => tree->List_0));
                    assert(decreases_to!(*items => items@));
                    assert(decreases_to!(items@ => items@[i as int]));
                }
                if is_risky(&items[i]) {
                    assert(items@[i as int].risky());
                    return true;
                }
                i += 1;
            }
            false
        },
        JsonTree::Object(fields) => {
            if kind_named(fields, "Precompiled") {
                return true;
            }
            if kind_named(fields, "BPEDecoder") {
                return true;
            }
            if kind_named(fields, "FixedLength") && lacks_length(fields) {
                return true;
            }
            if kind_named(fields, "Strip") && late_stop(fields) {
                return true;
            }
            if !short_merges(fields) {
                return true;
            }
            if kind_named(fields, "TemplateProcessing") && !processing_is_sound(fields) {
                return true;
            }
            if clashing_vocab(fields) {
                return true;
            }
            let mut i: usize = 0;
            while i < fields.len()
                invariant
                    i <= fields@.len(),
                    *tree == JsonTree::Object(*fields),
                    !refused(fields@),
                    forall|j: int| 0 <= j < i ==> !(#[trigger] fields@[j]).value.risky(),
                decreases fields@.len() - i,
            {
                proof {
                    assert(*tree is Object);
                    assert(tree->Object_0 == *fields);
                    assert(decreases_to!(*tree => tree->Object_0));
                    assert(decreases_to!(*fields => fields@));
                    assert(decreases_to!(fields@ => fields@[i as int]));
                    assert(decreases_to!(fields@[i as int] => fields@[i as int].value));
                }
                if is_risky(&fields[i].value) {
                    assert(fields@[i as int].value.risky());
                    return true;
                }
                i += 1;
            }
            false
        },
        _ => false,
    }
}

/// Whether a tokenizer may be built from `definition`.
pub fn is_screened(definition: &[u8]) -> (ok: bool)
    ensures
        ok == screened(definition@),
{
    match read_json(definition) {
        Some(tree) => !is_risky(&tree),
        None => false,
    }
}

} // verus!
