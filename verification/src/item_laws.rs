//! What the arguments, properties and attributes of messages are read as, and which are kept.
use vstd::prelude::*;

use crate::encoding::{fits, lemma_byte_read, lemma_stands_split, lemma_text_read, stands, text_bytes};
use crate::message_laws::{by_name, properties_added, scopes_added, Named, Scope, Span, V2Log};
use crate::models::JsonScalarView;
use crate::parser::{attribute, scope_key, short_value, v1_argument, v1_property};
use crate::text::dec;
use crate::value::{tagged_value, EnumTag};
use crate::value_laws::{is_number, lemma_int_bytes, lemma_integer_read, PlcInt};
use crate::wire::le16;

verus! {

broadcast use crate::wire::group_wire;

/// An integer with its 16-bit type before it.
pub open spec fn tagged_int(n: PlcInt) -> Seq<u8> {
    le16(n.kind() as u16) + n.bytes()
}

/// An integer with its one-byte type before it.
pub open spec fn short_int(n: PlcInt) -> Seq<u8> {
    seq![n.kind()] + n.bytes()
}

proof fn lemma_tagged_int(s: Seq<u8>, p: int, n: PlcInt)
    requires
        stands(s, p, tagged_int(n)),
    ensures
        tagged_value(s, p) matches (Ok(v), q) && is_number(v, n.number()) && q == p + 2 + n.width(),
{
    lemma_int_bytes(n);
    lemma_stands_split(s, p, le16(n.kind() as u16), n.bytes());
    crate::encoding::lemma_word_read(s, p, n.kind() as u16);
    lemma_integer_read(s, p + 2, n, EnumTag::Word);
}

proof fn lemma_short_int(s: Seq<u8>, p: int, n: PlcInt)
    requires
        stands(s, p, short_int(n)),
    ensures
        short_value(s, p) matches (Ok(v), q) && is_number(v, n.number()) && q == p + 1 + n.width(),
{
    lemma_int_bytes(n);
    lemma_stands_split(s, p, seq![n.kind()], n.bytes());
    lemma_byte_read(s, p, n.kind());
    lemma_integer_read(s, p + 1, n, EnumTag::Byte);
}

/// An argument of the first format, written as its index, the type of an integer and the bytes of
/// the integer, reads back as that index and that integer.
pub proof fn law_integer_arguments_read_back(s: Seq<u8>, p: int, index: u8, n: PlcInt)
    requires
        stands(s, p, seq![index] + tagged_int(n)),
    ensures
        v1_argument(s, p) matches (Ok((k, v)), q) && k == index && is_number(v, n.number()) && q == p + 3 + n.width(),
{
    lemma_stands_split(s, p, seq![index], tagged_int(n));
    lemma_byte_read(s, p, index);
    lemma_tagged_int(s, p + 1, n);
}

/// A property of the first format, written as its scope, its name, the type of an integer and the
/// bytes of the integer, reads back as that integer under the names of its scope and its own.
pub proof fn law_integer_properties_read_back(s: Seq<u8>, p: int, scope: u8, name: Seq<char>, n: PlcInt)
    requires
        fits(name),
        stands(s, p, seq![scope] + (text_bytes(name) + tagged_int(n))),
    ensures
        v1_property(s, p) matches (Ok((k, v)), q) && k == "scope_"@ + dec(scope as nat) + "_"@ + name && is_number(
            v,
            n.number(),
        ) && q == p + 3 + text_bytes(name).len() + n.width(),
{
    let t = text_bytes(name);
    lemma_stands_split(s, p, seq![scope], t + tagged_int(n));
    lemma_stands_split(s, p + 1, t, tagged_int(n));
    lemma_byte_read(s, p, scope);
    lemma_text_read(s, p + 1, name);
    lemma_tagged_int(s, p + 1 + t.len() as int, n);
}

/// An attribute, written as its name, the type of an integer and the bytes of the integer, reads
/// back as that name and that integer.
pub proof fn law_integer_attributes_read_back(s: Seq<u8>, p: int, name: Seq<char>, n: PlcInt)
    requires
        fits(name),
        stands(s, p, text_bytes(name) + short_int(n)),
    ensures
        attribute(s, p) matches (Ok((k, v)), q) && k == name && is_number(v, n.number()) && q == p + text_bytes(
            name,
        ).len() + 1 + n.width(),
{
    let t = text_bytes(name);
    lemma_stands_split(s, p, t, short_int(n));
    lemma_text_read(s, p, name);
    lemma_short_int(s, p + t.len() as int, n);
}

// What is kept.

/// The arguments of an entry of the second format are numbered from one, in order, and there are no
/// others.
pub proof fn law_arguments_are_numbered_from_one(e: V2Log, i: int, k: usize)
    requires
        e.arguments.len() < usize::MAX,
    ensures
        0 <= i < e.arguments.len() ==> e.read().arguments.dom().contains((i + 1) as usize) && e.read().arguments[(i
            + 1) as usize] == e.arguments[i],
        e.read().arguments.dom().contains(k) <==> 1 <= k <= e.arguments.len(),
{
}

/// Of the attributes of one name the last is kept, under that name, and there are no others.
pub proof fn law_last_attributes_are_kept(e: Span, i: int, name: Seq<char>)
    ensures
        0 <= i < e.attributes.len() && (forall|j: int|
            i < j < e.attributes.len() ==> (#[trigger] e.attributes[j]).name != e.attributes[i].name) ==> {
            &&& e.read().attributes.dom().contains(e.attributes[i].name)
            &&& e.read().attributes[e.attributes[i].name] == e.attributes[i].value
        },
        e.read().attributes.dom().contains(name) ==> exists|j: int|
            0 <= j < e.attributes.len() && (#[trigger] e.attributes[j]).name == name,
{
    lemma_by_name(e.attributes, Map::empty(), i);
    lemma_by_name_only(e.attributes, Map::empty(), name);
}

proof fn lemma_by_name(all: Seq<Named>, found: Map<Seq<char>, JsonScalarView>, i: int)
    ensures
        0 <= i < all.len() && (forall|j: int| i < j < all.len() ==> (#[trigger] all[j]).name != all[i].name) ==> {
            &&& by_name(all, found).dom().contains(all[i].name)
            &&& by_name(all, found)[all[i].name] == all[i].value
        },
    decreases all.len(),
{
    if 0 <= i < all.len() && (forall|j: int| i < j < all.len() ==> (#[trigger] all[j]).name != all[i].name) {
        let rest = all.skip(1);
        let next = found.insert(all[0].name, all[0].value);
        assert(forall|j: int| 0 <= j < rest.len() ==> #[trigger] rest[j] == all[j + 1]);
        if i > 0 {
            assert forall|j: int| i - 1 < j < rest.len() implies (#[trigger] rest[j]).name != rest[i - 1].name by {
                assert(rest[j] == all[j + 1]);
                assert(rest[i - 1] == all[i]);
            }
            lemma_by_name(rest, next, i - 1);
            assert(rest[i - 1] == all[i]);
        } else {
            assert forall|j: int| 0 <= j < rest.len() implies (#[trigger] rest[j]).name != all[0].name by {
                assert(rest[j] == all[j + 1]);
            }
            lemma_by_name_stays(rest, next, all[0].name);
        }
    }
}

proof fn lemma_by_name_stays(all: Seq<Named>, found: Map<Seq<char>, JsonScalarView>, name: Seq<char>)
    requires
        found.dom().contains(name),
        forall|j: int| 0 <= j < all.len() ==> (#[trigger] all[j]).name != name,
    ensures
        by_name(all, found).dom().contains(name),
        by_name(all, found)[name] == found[name],
    decreases all.len(),
{
    if all.len() > 0 {
        let rest = all.skip(1);
        assert forall|j: int| 0 <= j < rest.len() implies (#[trigger] rest[j]).name != name by {
            assert(rest[j] == all[j + 1]);
        }
        lemma_by_name_stays(rest, found.insert(all[0].name, all[0].value), name);
    }
}

proof fn lemma_by_name_only(all: Seq<Named>, found: Map<Seq<char>, JsonScalarView>, name: Seq<char>)
    ensures
        by_name(all, found).dom().contains(name) ==> found.dom().contains(name) || exists|j: int|
            0 <= j < all.len() && (#[trigger] all[j]).name == name,
    decreases all.len(),
{
    if all.len() > 0 {
        let rest = all.skip(1);
        lemma_by_name_only(rest, found.insert(all[0].name, all[0].value), name);
        if exists|j: int| 0 <= j < rest.len() && (#[trigger] rest[j]).name == name {
            let j = choose|j: int| 0 <= j < rest.len() && (#[trigger] rest[j]).name == name;
            assert(all[j + 1] == rest[j]);
        }
        assert(all[0].name == all[0].name);
    }
}

/// The name under which a property is kept.
pub open spec fn kept_as(scope: u8, name: Seq<char>) -> Seq<char> {
    "scope_"@ + dec(scope as nat) + "_"@ + name
}

/// A property of the second format is kept with its value under the names of its scope and its own,
/// unless a later one has the same; and nothing else is kept.
pub proof fn law_last_properties_are_kept(e: V2Log, i: int, k: int, key: Seq<char>)
    ensures
        0 <= i < e.scopes.len() && 0 <= k < e.scopes[i].properties.len() && kept_as(
            e.scopes[i].scope,
            e.scopes[i].properties[k].name,
        ) == key && (forall|m: int|
            k < m < e.scopes[i].properties.len() ==> kept_as(
                e.scopes[i].scope,
                (#[trigger] e.scopes[i].properties[m]).name,
            ) != key) && (forall|j: int| i < j < e.scopes.len() ==> !holds(#[trigger] e.scopes[j], key)) ==> {
            &&& e.read().context.dom().contains(key)
            &&& e.read().context[key] == e.scopes[i].properties[k].value
        },
        e.read().context.dom().contains(key) ==> exists|j: int|
            0 <= j < e.scopes.len() && holds(#[trigger] e.scopes[j], key),
{
    let none = Map::<Seq<char>, JsonScalarView>::empty();
    lemma_scopes_only(e.scopes, none, key);
    if 0 <= i < e.scopes.len() && 0 <= k < e.scopes[i].properties.len() && kept_as(
        e.scopes[i].scope,
        e.scopes[i].properties[k].name,
    ) == key && (forall|m: int|
        k < m < e.scopes[i].properties.len() ==> kept_as(
            e.scopes[i].scope,
            (#[trigger] e.scopes[i].properties[m]).name,
        ) != key) && (forall|j: int| i < j < e.scopes.len() ==> !holds(#[trigger] e.scopes[j], key)) {
        lemma_scope_kept(e.scopes, none, i, k, key);
    }
}

/// A property of the scope is kept under `key`.
pub open spec fn holds(c: Scope, key: Seq<char>) -> bool {
    exists|m: int| 0 <= m < c.properties.len() && kept_as(c.scope, (#[trigger] c.properties[m]).name) == key
}

proof fn lemma_scope_kept(all: Seq<Scope>, found: Map<Seq<char>, JsonScalarView>, i: int, k: int, key: Seq<char>)
    requires
        0 <= i < all.len(),
        0 <= k < all[i].properties.len(),
        kept_as(all[i].scope, all[i].properties[k].name) == key,
        forall|m: int|
            k < m < all[i].properties.len() ==> kept_as(all[i].scope, (#[trigger] all[i].properties[m]).name) != key,
        forall|j: int| i < j < all.len() ==> !holds(#[trigger] all[j], key),
    ensures
        scopes_added(all, found).dom().contains(key),
        scopes_added(all, found)[key] == all[i].properties[k].value,
    decreases all.len(),
{
    let rest = all.skip(1);
    assert(forall|j: int| 0 <= j < rest.len() ==> #[trigger] rest[j] == all[j + 1]);
    if i > 0 {
        assert forall|j: int| i - 1 < j < rest.len() implies !holds(#[trigger] rest[j], key) by {
            assert(rest[j] == all[j + 1]);
        }
        assert(rest[i - 1] == all[i]);
        lemma_scope_kept(rest, all[0].added(found), i - 1, k, key);
    } else {
        lemma_property_kept(all[0].scope, all[0].properties, found, k, key);
        assert forall|j: int| 0 <= j < rest.len() implies !holds(#[trigger] rest[j], key) by {
            assert(rest[j] == all[j + 1]);
        }
        lemma_scopes_stay(rest, all[0].added(found), key);
    }
}

proof fn lemma_property_kept(scope: u8, all: Seq<Named>, found: Map<Seq<char>, JsonScalarView>, k: int, key: Seq<char>)
    requires
        0 <= k < all.len(),
        kept_as(scope, all[k].name) == key,
        forall|m: int| k < m < all.len() ==> kept_as(scope, (#[trigger] all[m]).name) != key,
    ensures
        properties_added(scope, all, found).dom().contains(key),
        properties_added(scope, all, found)[key] == all[k].value,
    decreases all.len(),
{
    let rest = all.skip(1);
    let next = found.insert(scope_key(scope, all[0].name), all[0].value);
    assert(forall|j: int| 0 <= j < rest.len() ==> #[trigger] rest[j] == all[j + 1]);
    if k > 0 {
        assert forall|m: int| k - 1 < m < rest.len() implies kept_as(scope, (#[trigger] rest[m]).name) != key by {
            assert(rest[m] == all[m + 1]);
        }
        assert(rest[k - 1] == all[k]);
        lemma_property_kept(scope, rest, next, k - 1, key);
    } else {
        assert forall|m: int| 0 <= m < rest.len() implies kept_as(scope, (#[trigger] rest[m]).name) != key by {
            assert(rest[m] == all[m + 1]);
        }
        lemma_properties_stay(scope, rest, next, key);
    }
}

proof fn lemma_properties_stay(scope: u8, all: Seq<Named>, found: Map<Seq<char>, JsonScalarView>, key: Seq<char>)
    requires
        forall|m: int| 0 <= m < all.len() ==> kept_as(scope, (#[trigger] all[m]).name) != key,
    ensures
        properties_added(scope, all, found).dom().contains(key) == found.dom().contains(key),
        found.dom().contains(key) ==> properties_added(scope, all, found)[key] == found[key],
    decreases all.len(),
{
    if all.len() > 0 {
        let rest = all.skip(1);
        assert forall|m: int| 0 <= m < rest.len() implies kept_as(scope, (#[trigger] rest[m]).name) != key by {
            assert(rest[m] == all[m + 1]);
        }
        assert(kept_as(scope, all[0].name) != key);
        lemma_properties_stay(scope, rest, found.insert(scope_key(scope, all[0].name), all[0].value), key);
    }
}

proof fn lemma_scopes_stay(all: Seq<Scope>, found: Map<Seq<char>, JsonScalarView>, key: Seq<char>)
    requires
        forall|j: int| 0 <= j < all.len() ==> !holds(#[trigger] all[j], key),
    ensures
        scopes_added(all, found).dom().contains(key) == found.dom().contains(key),
        found.dom().contains(key) ==> scopes_added(all, found)[key] == found[key],
    decreases all.len(),
{
    if all.len() > 0 {
        let rest = all.skip(1);
        assert forall|j: int| 0 <= j < rest.len() implies !holds(#[trigger] rest[j], key) by {
            assert(rest[j] == all[j + 1]);
        }
        let c = all[0];
        assert(!holds(c, key));
        lemma_properties_stay(c.scope, c.properties, found, key);
        lemma_scopes_stay(rest, c.added(found), key);
    }
}

proof fn lemma_scopes_only(all: Seq<Scope>, found: Map<Seq<char>, JsonScalarView>, key: Seq<char>)
    ensures
        scopes_added(all, found).dom().contains(key) ==> found.dom().contains(key) || exists|j: int|
            0 <= j < all.len() && holds(#[trigger] all[j], key),
{
    if !(exists|j: int| 0 <= j < all.len() && holds(#[trigger] all[j], key)) {
        lemma_scopes_stay(all, found, key);
    }
}

/// A span is read with each of its events, in order: the event's name, its time, and of its
/// attributes of one name the last.
pub proof fn law_events_are_kept(e: Span, i: int, k: int)
    requires
        0 <= i < e.events.len(),
    ensures
        e.read().events.len() == e.events.len(),
        e.read().events[i].name == e.events[i].name,
        e.read().events[i].timestamp == e.events[i].timestamp,
        0 <= k < e.events[i].attributes.len() && (forall|j: int|
            k < j < e.events[i].attributes.len() ==> (#[trigger] e.events[i].attributes[j]).name
                != e.events[i].attributes[k].name) ==> {
            &&& e.read().events[i].attributes.dom().contains(e.events[i].attributes[k].name)
            &&& e.read().events[i].attributes[e.events[i].attributes[k].name] == e.events[i].attributes[k].value
        },
{
    lemma_by_name(e.events[i].attributes, Map::empty(), k);
}

} // verus!
