//! The functions that the library renders, compiled here as they are
//! rendered, wired to types by hand as serde's derive wires them, and run
//! with serde_json and serde_yaml.

use serbia::codegen::{render_deserialize_fn, render_serialize_fn};
use serde::de::{self, EnumAccess, MapAccess, SeqAccess, VariantAccess, Visitor};
use serde::ser::{SerializeStruct, SerializeTuple, SerializeTupleStruct, SerializeTupleVariant};
use serde::{Deserialize, Deserializer, Serialize, Serializer};
use std::collections::HashMap;
use std::convert::TryInto;
use std::sync::{Arc, OnceLock};

const BUFSIZE: usize = 300;

fn serbia_serialize_S_arr_0<E, S>(array: &[E; 300], serializer: S) -> core::result::Result<S::Ok, S::Error>
where
    E: serde::Serialize,
    S: serde::Serializer,
{
    let mut seq = serializer.serialize_tuple(300)?;
    for e in array {
        serde::ser::SerializeTuple::serialize_element(&mut seq, e)?;
    }
    serde::ser::SerializeTuple::end(seq)
}

fn serbia_deserialize_S_arr_0<'de, E, D>(deserializer: D) -> core::result::Result<[E; 300], D::Error>
where
    E: serde::Deserialize<'de>,
    D: serde::Deserializer<'de>,
{
    struct ArrayVisitor<E> {
        _casper: std::marker::PhantomData<E>,
    }

    impl<'de, E> serde::de::Visitor<'de> for ArrayVisitor<E>
    where
        E: serde::Deserialize<'de>,
    {
        type Value = [E; 300];

        fn expecting(&self, formatter: &mut std::fmt::Formatter) -> std::fmt::Result {
            formatter.write_str("an array")
        }

        fn visit_seq<A>(self, mut seq: A) -> core::result::Result<Self::Value, A::Error>
        where
            A: serde::de::SeqAccess<'de>,
        {
            let mut items: std::vec::Vec<E> = std::vec::Vec::new();
            while items.len() < 300 {
                match seq.next_element()? {
                    core::option::Option::Some(item) => items.push(item),
                    core::option::Option::None => {
                        return core::result::Result::Err(serde::de::Error::invalid_length(items.len(), &self));
                    }
                }
            }
            match <[E; 300] as core::convert::TryFrom<std::vec::Vec<E>>>::try_from(items) {
                core::result::Result::Ok(array) => core::result::Result::Ok(array),
                core::result::Result::Err(items) => {
                    core::result::Result::Err(serde::de::Error::invalid_length(items.len(), &self))
                }
            }
        }
    }

    deserializer.deserialize_tuple(300, ArrayVisitor { _casper: std::marker::PhantomData })
}

fn serbia_serialize_S_arr_1<E, S>(array: &[E; 42], serializer: S) -> core::result::Result<S::Ok, S::Error>
where
    E: serde::Serialize,
    S: serde::Serializer,
{
    let mut seq = serializer.serialize_tuple(42)?;
    for e in array {
        serde::ser::SerializeTuple::serialize_element(&mut seq, e)?;
    }
    serde::ser::SerializeTuple::end(seq)
}

fn serbia_deserialize_S_arr_1<'de, E, D>(deserializer: D) -> core::result::Result<[E; 42], D::Error>
where
    E: serde::Deserialize<'de>,
    D: serde::Deserializer<'de>,
{
    struct ArrayVisitor<E> {
        _casper: std::marker::PhantomData<E>,
    }

    impl<'de, E> serde::de::Visitor<'de> for ArrayVisitor<E>
    where
        E: serde::Deserialize<'de>,
    {
        type Value = [E; 42];

        fn expecting(&self, formatter: &mut std::fmt::Formatter) -> std::fmt::Result {
            formatter.write_str("an array")
        }

        fn visit_seq<A>(self, mut seq: A) -> core::result::Result<Self::Value, A::Error>
        where
            A: serde::de::SeqAccess<'de>,
        {
            let mut items: std::vec::Vec<E> = std::vec::Vec::new();
            while items.len() < 42 {
                match seq.next_element()? {
                    core::option::Option::Some(item) => items.push(item),
                    core::option::Option::None => {
                        return core::result::Result::Err(serde::de::Error::invalid_length(items.len(), &self));
                    }
                }
            }
            match <[E; 42] as core::convert::TryFrom<std::vec::Vec<E>>>::try_from(items) {
                core::result::Result::Ok(array) => core::result::Result::Ok(array),
                core::result::Result::Err(items) => {
                    core::result::Result::Err(serde::de::Error::invalid_length(items.len(), &self))
                }
            }
        }
    }

    deserializer.deserialize_tuple(42, ArrayVisitor { _casper: std::marker::PhantomData })
}

fn serbia_serialize_E_arr_0<E, S>(array: &[E; 300], serializer: S) -> core::result::Result<S::Ok, S::Error>
where
    E: serde::Serialize,
    S: serde::Serializer,
{
    let mut seq = serializer.serialize_tuple(300)?;
    for e in array {
        serde::ser::SerializeTuple::serialize_element(&mut seq, e)?;
    }
    serde::ser::SerializeTuple::end(seq)
}

fn serbia_deserialize_E_arr_0<'de, E, D>(deserializer: D) -> core::result::Result<[E; 300], D::Error>
where
    E: serde::Deserialize<'de>,
    D: serde::Deserializer<'de>,
{
    struct ArrayVisitor<E> {
        _casper: std::marker::PhantomData<E>,
    }

    impl<'de, E> serde::de::Visitor<'de> for ArrayVisitor<E>
    where
        E: serde::Deserialize<'de>,
    {
        type Value = [E; 300];

        fn expecting(&self, formatter: &mut std::fmt::Formatter) -> std::fmt::Result {
            formatter.write_str("an array")
        }

        fn visit_seq<A>(self, mut seq: A) -> core::result::Result<Self::Value, A::Error>
        where
            A: serde::de::SeqAccess<'de>,
        {
            let mut items: std::vec::Vec<E> = std::vec::Vec::new();
            while items.len() < 300 {
                match seq.next_element()? {
                    core::option::Option::Some(item) => items.push(item),
                    core::option::Option::None => {
                        return core::result::Result::Err(serde::de::Error::invalid_length(items.len(), &self));
                    }
                }
            }
            match <[E; 300] as core::convert::TryFrom<std::vec::Vec<E>>>::try_from(items) {
                core::result::Result::Ok(array) => core::result::Result::Ok(array),
                core::result::Result::Err(items) => {
                    core::result::Result::Err(serde::de::Error::invalid_length(items.len(), &self))
                }
            }
        }
    }

    deserializer.deserialize_tuple(300, ArrayVisitor { _casper: std::marker::PhantomData })
}

fn serbia_serialize_E_arr_3<E, S>(array: &[E; 44], serializer: S) -> core::result::Result<S::Ok, S::Error>
where
    E: serde::Serialize,
    S: serde::Serializer,
{
    let mut seq = serializer.serialize_tuple(44)?;
    for e in array {
        serde::ser::SerializeTuple::serialize_element(&mut seq, e)?;
    }
    serde::ser::SerializeTuple::end(seq)
}

fn serbia_deserialize_E_arr_3<'de, E, D>(deserializer: D) -> core::result::Result<[E; 44], D::Error>
where
    E: serde::Deserialize<'de>,
    D: serde::Deserializer<'de>,
{
    struct ArrayVisitor<E> {
        _casper: std::marker::PhantomData<E>,
    }

    impl<'de, E> serde::de::Visitor<'de> for ArrayVisitor<E>
    where
        E: serde::Deserialize<'de>,
    {
        type Value = [E; 44];

        fn expecting(&self, formatter: &mut std::fmt::Formatter) -> std::fmt::Result {
            formatter.write_str("an array")
        }

        fn visit_seq<A>(self, mut seq: A) -> core::result::Result<Self::Value, A::Error>
        where
            A: serde::de::SeqAccess<'de>,
        {
            let mut items: std::vec::Vec<E> = std::vec::Vec::new();
            while items.len() < 44 {
                match seq.next_element()? {
                    core::option::Option::Some(item) => items.push(item),
                    core::option::Option::None => {
                        return core::result::Result::Err(serde::de::Error::invalid_length(items.len(), &self));
                    }
                }
            }
            match <[E; 44] as core::convert::TryFrom<std::vec::Vec<E>>>::try_from(items) {
                core::result::Result::Ok(array) => core::result::Result::Ok(array),
                core::result::Result::Err(items) => {
                    core::result::Result::Err(serde::de::Error::invalid_length(items.len(), &self))
                }
            }
        }
    }

    deserializer.deserialize_tuple(44, ArrayVisitor { _casper: std::marker::PhantomData })
}

fn serbia_serialize_Leak_arr_0<E, S>(array: &[E; 5], serializer: S) -> core::result::Result<S::Ok, S::Error>
where
    E: serde::Serialize,
    S: serde::Serializer,
{
    let mut seq = serializer.serialize_tuple(5)?;
    for e in array {
        serde::ser::SerializeTuple::serialize_element(&mut seq, e)?;
    }
    serde::ser::SerializeTuple::end(seq)
}

fn serbia_deserialize_Leak_arr_0<'de, E, D>(deserializer: D) -> core::result::Result<[E; 5], D::Error>
where
    E: serde::Deserialize<'de>,
    D: serde::Deserializer<'de>,
{
    struct ArrayVisitor<E> {
        _casper: std::marker::PhantomData<E>,
    }

    impl<'de, E> serde::de::Visitor<'de> for ArrayVisitor<E>
    where
        E: serde::Deserialize<'de>,
    {
        type Value = [E; 5];

        fn expecting(&self, formatter: &mut std::fmt::Formatter) -> std::fmt::Result {
            formatter.write_str("an array")
        }

        fn visit_seq<A>(self, mut seq: A) -> core::result::Result<Self::Value, A::Error>
        where
            A: serde::de::SeqAccess<'de>,
        {
            let mut items: std::vec::Vec<E> = std::vec::Vec::new();
            while items.len() < 5 {
                match seq.next_element()? {
                    core::option::Option::Some(item) => items.push(item),
                    core::option::Option::None => {
                        return core::result::Result::Err(serde::de::Error::invalid_length(items.len(), &self));
                    }
                }
            }
            match <[E; 5] as core::convert::TryFrom<std::vec::Vec<E>>>::try_from(items) {
                core::result::Result::Ok(array) => core::result::Result::Ok(array),
                core::result::Result::Err(items) => {
                    core::result::Result::Err(serde::de::Error::invalid_length(items.len(), &self))
                }
            }
        }
    }

    deserializer.deserialize_tuple(5, ArrayVisitor { _casper: std::marker::PhantomData })
}

fn serbia_serialize_Named_arr_0<E, S>(array: &[E; BUFSIZE], serializer: S) -> core::result::Result<S::Ok, S::Error>
where
    E: serde::Serialize,
    S: serde::Serializer,
{
    let mut seq = serializer.serialize_tuple(BUFSIZE)?;
    for e in array {
        serde::ser::SerializeTuple::serialize_element(&mut seq, e)?;
    }
    serde::ser::SerializeTuple::end(seq)
}

fn serbia_deserialize_Named_arr_0<'de, E, D>(deserializer: D) -> core::result::Result<[E; BUFSIZE], D::Error>
where
    E: serde::Deserialize<'de>,
    D: serde::Deserializer<'de>,
{
    struct ArrayVisitor<E> {
        _casper: std::marker::PhantomData<E>,
    }

    impl<'de, E> serde::de::Visitor<'de> for ArrayVisitor<E>
    where
        E: serde::Deserialize<'de>,
    {
        type Value = [E; BUFSIZE];

        fn expecting(&self, formatter: &mut std::fmt::Formatter) -> std::fmt::Result {
            formatter.write_str("an array")
        }

        fn visit_seq<A>(self, mut seq: A) -> core::result::Result<Self::Value, A::Error>
        where
            A: serde::de::SeqAccess<'de>,
        {
            let mut items: std::vec::Vec<E> = std::vec::Vec::new();
            while items.len() < BUFSIZE {
                match seq.next_element()? {
                    core::option::Option::Some(item) => items.push(item),
                    core::option::Option::None => {
                        return core::result::Result::Err(serde::de::Error::invalid_length(items.len(), &self));
                    }
                }
            }
            match <[E; BUFSIZE] as core::convert::TryFrom<std::vec::Vec<E>>>::try_from(items) {
                core::result::Result::Ok(array) => core::result::Result::Ok(array),
                core::result::Result::Err(items) => {
                    core::result::Result::Err(serde::de::Error::invalid_length(items.len(), &self))
                }
            }
        }
    }

    deserializer.deserialize_tuple(BUFSIZE, ArrayVisitor { _casper: std::marker::PhantomData })
}


const SERIALIZE_TEXT: &str = "fn serbia_serialize_S_arr_0<E, S>(array: &[E; 300], serializer: S) -> core::result::Result<S::Ok, S::Error>\nwhere\n    E: serde::Serialize,\n    S: serde::Serializer,\n{\n    let mut seq = serializer.serialize_tuple(300)?;\n    for e in array {\n        serde::ser::SerializeTuple::serialize_element(&mut seq, e)?;\n    }\n    serde::ser::SerializeTuple::end(seq)\n}\n";

const DESERIALIZE_TEXT: &str = "fn serbia_deserialize_S_arr_0<'de, E, D>(deserializer: D) -> core::result::Result<[E; 300], D::Error>\nwhere\n    E: serde::Deserialize<'de>,\n    D: serde::Deserializer<'de>,\n{\n    struct ArrayVisitor<E> {\n        _casper: std::marker::PhantomData<E>,\n    }\n\n    impl<'de, E> serde::de::Visitor<'de> for ArrayVisitor<E>\n    where\n        E: serde::Deserialize<'de>,\n    {\n        type Value = [E; 300];\n\n        fn expecting(&self, formatter: &mut std::fmt::Formatter) -> std::fmt::Result {\n            formatter.write_str(\"an array\")\n        }\n\n        fn visit_seq<A>(self, mut seq: A) -> core::result::Result<Self::Value, A::Error>\n        where\n            A: serde::de::SeqAccess<'de>,\n        {\n            let mut items: std::vec::Vec<E> = std::vec::Vec::new();\n            while items.len() < 300 {\n                match seq.next_element()? {\n                    core::option::Option::Some(item) => items.push(item),\n                    core::option::Option::None => {\n                        return core::result::Result::Err(serde::de::Error::invalid_length(items.len(), &self));\n                    }\n                }\n            }\n            match <[E; 300] as core::convert::TryFrom<std::vec::Vec<E>>>::try_from(items) {\n                core::result::Result::Ok(array) => core::result::Result::Ok(array),\n                core::result::Result::Err(items) => {\n                    core::result::Result::Err(serde::de::Error::invalid_length(items.len(), &self))\n                }\n            }\n        }\n    }\n\n    deserializer.deserialize_tuple(300, ArrayVisitor { _casper: std::marker::PhantomData })\n}\n";

#[test]
fn rendered_text_is_the_code_compiled_here() {
    let compiled = [
        ("S", "0", "300"),
        ("S", "1", "42"),
        ("E", "0", "300"),
        ("E", "3", "44"),
        ("Leak", "0", "5"),
        ("Named", "0", "BUFSIZE"),
    ];
    for (type_ident, index, len) in compiled {
        let serialize = format!("serbia_serialize_{}_arr_{}", type_ident, index);
        let expected =
            SERIALIZE_TEXT.replace("serbia_serialize_S_arr_0", &serialize).replace("300", len);
        assert_eq!(render_serialize_fn(&serialize, len), expected);

        let deserialize = format!("serbia_deserialize_{}_arr_{}", type_ident, index);
        let expected = DESERIALIZE_TEXT
            .replace("serbia_deserialize_S_arr_0", &deserialize)
            .replace("300", len);
        assert_eq!(render_deserialize_fn(&deserialize, len), expected);
    }
}

struct Ser300<'a, T>(&'a [T; 300]);

impl<'a, T: Serialize> Serialize for Ser300<'a, T> {
    fn serialize<S: Serializer>(&self, serializer: S) -> Result<S::Ok, S::Error> {
        serbia_serialize_S_arr_0(self.0, serializer)
    }
}

struct De300<T>([T; 300]);

impl<'de, T: Deserialize<'de>> Deserialize<'de> for De300<T> {
    fn deserialize<D: Deserializer<'de>>(deserializer: D) -> Result<Self, D::Error> {
        serbia_deserialize_S_arr_0(deserializer).map(De300)
    }
}

struct Ser42<'a, T>(&'a [T; 42]);

impl<'a, T: Serialize> Serialize for Ser42<'a, T> {
    fn serialize<S: Serializer>(&self, serializer: S) -> Result<S::Ok, S::Error> {
        serbia_serialize_S_arr_1(self.0, serializer)
    }
}

struct De42<T>([T; 42]);

impl<'de, T: Deserialize<'de>> Deserialize<'de> for De42<T> {
    fn deserialize<D: Deserializer<'de>>(deserializer: D) -> Result<Self, D::Error> {
        serbia_deserialize_S_arr_1(deserializer).map(De42)
    }
}

struct SerE0<'a, T>(&'a [T; 300]);

impl<'a, T: Serialize> Serialize for SerE0<'a, T> {
    fn serialize<S: Serializer>(&self, serializer: S) -> Result<S::Ok, S::Error> {
        serbia_serialize_E_arr_0(self.0, serializer)
    }
}

struct DeE0<T>([T; 300]);

impl<'de, T: Deserialize<'de>> Deserialize<'de> for DeE0<T> {
    fn deserialize<D: Deserializer<'de>>(deserializer: D) -> Result<Self, D::Error> {
        serbia_deserialize_E_arr_0(deserializer).map(DeE0)
    }
}

struct SerE3<'a, T>(&'a [T; 44]);

impl<'a, T: Serialize> Serialize for SerE3<'a, T> {
    fn serialize<S: Serializer>(&self, serializer: S) -> Result<S::Ok, S::Error> {
        serbia_serialize_E_arr_3(self.0, serializer)
    }
}

struct DeE3<T>([T; 44]);

impl<'de, T: Deserialize<'de>> Deserialize<'de> for DeE3<T> {
    fn deserialize<D: Deserializer<'de>>(deserializer: D) -> Result<Self, D::Error> {
        serbia_deserialize_E_arr_3(deserializer).map(DeE3)
    }
}

struct Ser5<'a, T>(&'a [T; 5]);

impl<'a, T: Serialize> Serialize for Ser5<'a, T> {
    fn serialize<S: Serializer>(&self, serializer: S) -> Result<S::Ok, S::Error> {
        serbia_serialize_Leak_arr_0(self.0, serializer)
    }
}

struct De5<T>([T; 5]);

impl<'de, T: Deserialize<'de>> Deserialize<'de> for De5<T> {
    fn deserialize<D: Deserializer<'de>>(deserializer: D) -> Result<Self, D::Error> {
        serbia_deserialize_Leak_arr_0(deserializer).map(De5)
    }
}

struct SerNamed<'a, T>(&'a [T; BUFSIZE]);

impl<'a, T: Serialize> Serialize for SerNamed<'a, T> {
    fn serialize<S: Serializer>(&self, serializer: S) -> Result<S::Ok, S::Error> {
        serbia_serialize_Named_arr_0(self.0, serializer)
    }
}

struct DeNamed<T>([T; BUFSIZE]);

impl<'de, T: Deserialize<'de>> Deserialize<'de> for DeNamed<T> {
    fn deserialize<D: Deserializer<'de>>(deserializer: D) -> Result<Self, D::Error> {
        serbia_deserialize_Named_arr_0(deserializer).map(DeNamed)
    }
}

/// `struct S { arr_a: [u8; 300], arr_b: [u8; 42], arr_small: [u8; 8] }` with
/// the two big fields pointed to their functions.
#[derive(Debug, PartialEq)]
struct Regular {
    arr_a: [u8; 300],
    arr_b: [u8; 42],
    arr_small: [u8; 8],
}

impl Serialize for Regular {
    fn serialize<S: Serializer>(&self, serializer: S) -> Result<S::Ok, S::Error> {
        let mut state = serializer.serialize_struct("S", 3)?;
        state.serialize_field("arr_a", &Ser300(&self.arr_a))?;
        state.serialize_field("arr_b", &Ser42(&self.arr_b))?;
        state.serialize_field("arr_small", &self.arr_small)?;
        state.end()
    }
}

struct RegularVisitor;

impl<'de> Visitor<'de> for RegularVisitor {
    type Value = Regular;

    fn expecting(&self, formatter: &mut std::fmt::Formatter) -> std::fmt::Result {
        formatter.write_str("struct S")
    }

    fn visit_map<A: MapAccess<'de>>(self, mut map: A) -> Result<Regular, A::Error> {
        let mut arr_a = None;
        let mut arr_b = None;
        let mut arr_small = None;
        while let Some(key) = map.next_key::<String>()? {
            match key.as_str() {
                "arr_a" => arr_a = Some(map.next_value::<De300<u8>>()?.0),
                "arr_b" => arr_b = Some(map.next_value::<De42<u8>>()?.0),
                "arr_small" => arr_small = Some(map.next_value::<[u8; 8]>()?),
                other => return Err(de::Error::unknown_field(other, &["arr_a", "arr_b", "arr_small"])),
            }
        }
        Ok(Regular {
            arr_a: arr_a.ok_or_else(|| de::Error::missing_field("arr_a"))?,
            arr_b: arr_b.ok_or_else(|| de::Error::missing_field("arr_b"))?,
            arr_small: arr_small.ok_or_else(|| de::Error::missing_field("arr_small"))?,
        })
    }
}

impl<'de> Deserialize<'de> for Regular {
    fn deserialize<D: Deserializer<'de>>(deserializer: D) -> Result<Self, D::Error> {
        deserializer.deserialize_struct("S", &["arr_a", "arr_b", "arr_small"], RegularVisitor)
    }
}

#[test]
fn regular_struct_roundtrip() {
    let original = Regular { arr_a: [0; 300], arr_b: [0; 42], arr_small: [0; 8] };

    let serialized = serde_yaml::to_string(&original).unwrap();
    let deserialized = serde_yaml::from_str(&serialized).unwrap();

    assert_eq!(original, deserialized);
}

/// `struct S([u8; 300], [u8; 42], [u8; 8]);` with the two big fields pointed
/// to their functions.
#[derive(Debug, PartialEq)]
struct Tuple([u8; 300], [u8; 42], [u8; 8]);

impl Serialize for Tuple {
    fn serialize<S: Serializer>(&self, serializer: S) -> Result<S::Ok, S::Error> {
        let mut state = serializer.serialize_tuple_struct("S", 3)?;
        state.serialize_field(&Ser300(&self.0))?;
        state.serialize_field(&Ser42(&self.1))?;
        state.serialize_field(&self.2)?;
        state.end()
    }
}

struct TupleVisitor;

impl<'de> Visitor<'de> for TupleVisitor {
    type Value = Tuple;

    fn expecting(&self, formatter: &mut std::fmt::Formatter) -> std::fmt::Result {
        formatter.write_str("tuple struct S")
    }

    fn visit_seq<A: SeqAccess<'de>>(self, mut seq: A) -> Result<Tuple, A::Error> {
        let first = seq.next_element::<De300<u8>>()?.ok_or_else(|| de::Error::invalid_length(0, &self))?;
        let second = seq.next_element::<De42<u8>>()?.ok_or_else(|| de::Error::invalid_length(1, &self))?;
        let third = seq.next_element::<[u8; 8]>()?.ok_or_else(|| de::Error::invalid_length(2, &self))?;
        Ok(Tuple(first.0, second.0, third))
    }
}

impl<'de> Deserialize<'de> for Tuple {
    fn deserialize<D: Deserializer<'de>>(deserializer: D) -> Result<Self, D::Error> {
        deserializer.deserialize_tuple_struct("S", 3, TupleVisitor)
    }
}

#[test]
fn tuple_struct_roundtrip() {
    let original = Tuple([0; 300], [0; 42], [0; 8]);

    let serialized = serde_yaml::to_string(&original).unwrap();
    let deserialized = serde_yaml::from_str(&serialized).unwrap();

    assert_eq!(original, deserialized);
}

/// The enum of three variants, with the fields at the indices 0 and 3
/// pointed to their functions.
#[derive(Debug, PartialEq)]
enum E {
    ArrBig([u8; 300]),
    ArrSmall([u8; 22]),
    Mixed([u8; 8], [i32; 44], String),
}

impl Serialize for E {
    fn serialize<S: Serializer>(&self, serializer: S) -> Result<S::Ok, S::Error> {
        match self {
            E::ArrBig(big) => serializer.serialize_newtype_variant("E", 0, "ArrBig", &SerE0(big)),
            E::ArrSmall(small) => serializer.serialize_newtype_variant("E", 1, "ArrSmall", small),
            E::Mixed(small, big, text) => {
                let mut state = serializer.serialize_tuple_variant("E", 2, "Mixed", 3)?;
                state.serialize_field(small)?;
                state.serialize_field(&SerE3(big))?;
                state.serialize_field(text)?;
                state.end()
            }
        }
    }
}

struct MixedVisitor;

impl<'de> Visitor<'de> for MixedVisitor {
    type Value = E;

    fn expecting(&self, formatter: &mut std::fmt::Formatter) -> std::fmt::Result {
        formatter.write_str("tuple variant E::Mixed")
    }

    fn visit_seq<A: SeqAccess<'de>>(self, mut seq: A) -> Result<E, A::Error> {
        let small = seq.next_element::<[u8; 8]>()?.ok_or_else(|| de::Error::invalid_length(0, &self))?;
        let big = seq.next_element::<DeE3<i32>>()?.ok_or_else(|| de::Error::invalid_length(1, &self))?;
        let text = seq.next_element::<String>()?.ok_or_else(|| de::Error::invalid_length(2, &self))?;
        Ok(E::Mixed(small, big.0, text))
    }
}

struct EVisitor;

impl<'de> Visitor<'de> for EVisitor {
    type Value = E;

    fn expecting(&self, formatter: &mut std::fmt::Formatter) -> std::fmt::Result {
        formatter.write_str("enum E")
    }

    fn visit_enum<A: EnumAccess<'de>>(self, data: A) -> Result<E, A::Error> {
        let (name, variant) = data.variant::<String>()?;
        match name.as_str() {
            "ArrBig" => variant.newtype_variant::<DeE0<u8>>().map(|big| E::ArrBig(big.0)),
            "ArrSmall" => variant.newtype_variant::<[u8; 22]>().map(E::ArrSmall),
            "Mixed" => variant.tuple_variant(3, MixedVisitor),
            other => Err(de::Error::unknown_variant(other, &["ArrBig", "ArrSmall", "Mixed"])),
        }
    }
}

impl<'de> Deserialize<'de> for E {
    fn deserialize<D: Deserializer<'de>>(deserializer: D) -> Result<Self, D::Error> {
        deserializer.deserialize_enum("E", &["ArrBig", "ArrSmall", "Mixed"], EVisitor)
    }
}

#[test]
fn enum_roundtrip() {
    // 1
    let original = E::ArrBig([22; 300]);

    let serialized = serde_yaml::to_string(&original).unwrap();
    let deserialized = serde_yaml::from_str(&serialized).unwrap();

    assert_eq!(original, deserialized);

    // 2
    let original = E::ArrSmall([44; 22]);

    let serialized = serde_yaml::to_string(&original).unwrap();
    let deserialized = serde_yaml::from_str(&serialized).unwrap();

    assert_eq!(original, deserialized);

    // 3
    let original = E::Mixed([0; 8], [5; 44], "asd".to_string());

    let serialized = serde_yaml::to_string(&original).unwrap();
    let deserialized = serde_yaml::from_str(&serialized).unwrap();

    assert_eq!(original, deserialized);
}

#[test]
fn enum_roundtrip_json() {
    let values = [
        E::ArrBig([22; 300]),
        E::ArrSmall([44; 22]),
        E::Mixed([0; 8], [5; 44], "asd".to_string()),
    ];
    for original in values {
        let serialized = serde_json::to_string(&original).unwrap();
        let deserialized: E = serde_json::from_str(&serialized).unwrap();
        assert_eq!(original, deserialized);
    }
}

#[test]
fn constant() {
    let arr_a: [u8; BUFSIZE] = [0; BUFSIZE];
    let arr_b: [u8; 42] = [0; 42];
    let arr_small: [u8; 8] = [0; 8];

    let serialized = serde_yaml::to_string(&(SerNamed(&arr_a), Ser42(&arr_b), arr_small)).unwrap();
    let deserialized: (DeNamed<u8>, De42<u8>, [u8; 8]) = serde_yaml::from_str(&serialized).unwrap();

    assert_eq!(arr_a, deserialized.0 .0);
    assert_eq!(arr_b, deserialized.1 .0);
    assert_eq!(arr_small, deserialized.2);
}

#[test]
fn type_alias() {
    let arr_a: [i32; BUFSIZE] = [0; BUFSIZE];
    let arr_b: [u8; 42] = [0; 42];
    let arr_small: [u8; 8] = [0; 8];

    let serialized = serde_yaml::to_string(&(SerNamed(&arr_a), Ser42(&arr_b), arr_small)).unwrap();
    let deserialized: (DeNamed<i32>, De42<u8>, [u8; 8]) = serde_yaml::from_str(&serialized).unwrap();

    assert_eq!(arr_a, deserialized.0 .0);
    assert_eq!(arr_b, deserialized.1 .0);
    assert_eq!(arr_small, deserialized.2);
}

#[test]
fn skip_field() {
    let arr_a: [u8; 24] = [0; 24];
    let arr_b: [u8; 42] = [0; 42];
    let arr_small: [u8; 8] = [0; 8];

    let serialized = serde_yaml::to_string(&(arr_a, Ser42(&arr_b), arr_small)).unwrap();
    let deserialized: ([u8; 24], De42<u8>, [u8; 8]) = serde_yaml::from_str(&serialized).unwrap();

    assert_eq!(arr_a, deserialized.0);
    assert_eq!(arr_b, deserialized.1 .0);
    assert_eq!(arr_small, deserialized.2);
}

/// `struct S { arr_a: [u8; 42] }` with the field pointed to its deserialize
/// function.
#[derive(Debug, PartialEq)]
struct Single {
    arr_a: [u8; 42],
}

struct SingleVisitor;

impl<'de> Visitor<'de> for SingleVisitor {
    type Value = Single;

    fn expecting(&self, formatter: &mut std::fmt::Formatter) -> std::fmt::Result {
        formatter.write_str("struct S")
    }

    fn visit_map<A: MapAccess<'de>>(self, mut map: A) -> Result<Single, A::Error> {
        let mut arr_a = None;
        while let Some(key) = map.next_key::<String>()? {
            match key.as_str() {
                "arr_a" => arr_a = Some(map.next_value::<De42<u8>>()?.0),
                other => return Err(de::Error::unknown_field(other, &["arr_a"])),
            }
        }
        Ok(Single { arr_a: arr_a.ok_or_else(|| de::Error::missing_field("arr_a"))? })
    }
}

impl<'de> Deserialize<'de> for Single {
    fn deserialize<D: Deserializer<'de>>(deserializer: D) -> Result<Self, D::Error> {
        deserializer.deserialize_struct("S", &["arr_a"], SingleVisitor)
    }
}

/// Serializes `Single` as serde does when the field is skipped, always or by
/// the answer of `skip_if`.
struct Skipping<'a> {
    value: &'a Single,
    skip_if: fn(&[u8; 42]) -> bool,
}

impl<'a> Serialize for Skipping<'a> {
    fn serialize<S: Serializer>(&self, serializer: S) -> Result<S::Ok, S::Error> {
        if (self.skip_if)(&self.value.arr_a) {
            serializer.serialize_struct("S", 0)?.end()
        } else {
            let mut state = serializer.serialize_struct("S", 1)?;
            state.serialize_field("arr_a", &Ser42(&self.value.arr_a))?;
            state.end()
        }
    }
}

fn t(_: &[u8; 42]) -> bool {
    true
}

fn f(_: &[u8; 42]) -> bool {
    false
}

const ZEROS: &str = "
        arr_a: [0, 0, 0, 0, 0, 0, 0, 0, 0, 0, 0, 0, 0, 0, 0, 0, 0, 0, 0, 0, 0, 0, 0, 0, 0, 0, 0, 0, 0, 0, 0, 0, 0, 0, 0, 0, 0, 0, 0, 0, 0, 0]
    ";

#[test]
fn skip_serializing() {
    let original = Single { arr_a: [2; 42] };

    let expected = Single { arr_a: [0; 42] };

    let serialized = serde_yaml::to_string(&Skipping { value: &original, skip_if: t }).unwrap();
    let deserialized: Result<Single, _> = serde_yaml::from_str(&serialized);

    assert!(deserialized.is_err());

    let deserialized = serde_yaml::from_str(ZEROS).unwrap();

    assert_eq!(expected, deserialized);
}

#[test]
fn skip_serializing_if_true() {
    let original = Single { arr_a: [2; 42] };

    let expected = Single { arr_a: [0; 42] };

    let serialized = serde_yaml::to_string(&Skipping { value: &original, skip_if: t }).unwrap();
    let deserialized: Result<Single, _> = serde_yaml::from_str(&serialized);

    assert!(deserialized.is_err());

    let deserialized = serde_yaml::from_str(ZEROS).unwrap();

    assert_eq!(expected, deserialized);
}

#[test]
fn skip_serializing_if_false() {
    let original = Single { arr_a: [2; 42] };

    let serialized = serde_yaml::to_string(&Skipping { value: &original, skip_if: f }).unwrap();
    let deserialized = serde_yaml::from_str(&serialized).unwrap();

    assert_eq!(original, deserialized);
}

/// Writes fives whatever the array holds, so that a test can tell whether
/// this function was the one in use.
fn ser<S>(array: &[u8; 42], serializer: S) -> Result<S::Ok, S::Error>
where
    S: serde::Serializer,
{
    let mut seq = serializer.serialize_tuple(42)?;
    for _ in array {
        seq.serialize_element(&5)?;
    }
    seq.end()
}

struct OwnVisitor;

impl<'de> Visitor<'de> for OwnVisitor {
    type Value = [u8; 42];

    fn expecting(&self, formatter: &mut std::fmt::Formatter) -> std::fmt::Result {
        formatter.write_str("an array")
    }

    fn visit_seq<A: SeqAccess<'de>>(self, mut seq: A) -> Result<Self::Value, A::Error> {
        let mut arr = [0u8; 42];
        for (i, v) in arr.iter_mut().enumerate() {
            *v = match seq.next_element()? {
                Some(val) => val,
                None => return Err(de::Error::invalid_length(i, &self)),
            };
        }
        Ok(arr)
    }
}

fn de<'de, D>(deserializer: D) -> core::result::Result<[u8; 42], D::Error>
where
    D: serde::Deserializer<'de>,
{
    deserializer.deserialize_tuple(42, OwnVisitor)
}

/// `struct S { big_arr: [u8; 42] }` whose field has `serialize_with = "ser"`
/// and `deserialize_with = "de"` of its own, and gets nothing else.
#[derive(Debug, PartialEq)]
struct Own {
    big_arr: [u8; 42],
}

struct OwnField<'a>(&'a [u8; 42]);

impl<'a> Serialize for OwnField<'a> {
    fn serialize<S: Serializer>(&self, serializer: S) -> Result<S::Ok, S::Error> {
        ser(self.0, serializer)
    }
}

impl Serialize for Own {
    fn serialize<S: Serializer>(&self, serializer: S) -> Result<S::Ok, S::Error> {
        let mut state = serializer.serialize_struct("S", 1)?;
        state.serialize_field("big_arr", &OwnField(&self.big_arr))?;
        state.end()
    }
}

struct OwnFieldBack([u8; 42]);

impl<'de> Deserialize<'de> for OwnFieldBack {
    fn deserialize<D: Deserializer<'de>>(deserializer: D) -> Result<Self, D::Error> {
        de(deserializer).map(OwnFieldBack)
    }
}

impl<'de> Deserialize<'de> for Own {
    fn deserialize<D: Deserializer<'de>>(deserializer: D) -> Result<Self, D::Error> {
        let mut fields: HashMap<String, OwnFieldBack> = HashMap::deserialize(deserializer)?;
        match fields.remove("big_arr") {
            Some(field) => Ok(Own { big_arr: field.0 }),
            None => Err(de::Error::missing_field("big_arr")),
        }
    }
}

#[test]
fn serialize_deserialize_with() {
    let original = Own { big_arr: [0; 42] };

    let expected = Own { big_arr: [5; 42] };

    let serialized = serde_yaml::to_string(&original).unwrap();
    let deserialized = serde_yaml::from_str(&serialized).unwrap();

    assert_ne!(original, deserialized);
    assert_eq!(deserialized, expected);
}

#[test]
fn big_array_round_trip_keeps_every_element_in_order() {
    let mut original = [0u16; 300];
    for (i, slot) in original.iter_mut().enumerate() {
        *slot = (i * 7) as u16;
    }

    let json = serde_json::to_string(&Ser300(&original)).unwrap();
    let direct: Vec<u16> = serde_json::from_str(&json).unwrap();
    assert_eq!(direct, original.to_vec());

    let back: De300<u16> = serde_json::from_str(&json).unwrap();
    assert_eq!(back.0, original);
}

#[test]
fn mem_safety_regression_test() {
    let mut i = 0;
    let arr_big: [String; 300] = std::iter::from_fn(|| {
        i += 1;
        Some(i.to_string())
    })
    .take(300)
    .collect::<Vec<_>>()
    .try_into()
    .unwrap();

    let json = serde_json::to_string(&Ser300(&arr_big)).unwrap();
    let back: De300<String> = serde_json::from_str(&json).unwrap();
    assert_eq!(back.0, arr_big);

    let empty = serde_json::from_str::<HashMap<String, De300<String>>>("{\"arr_big\": []}");
    let message = empty.err().unwrap().to_string();
    assert!(message.contains("invalid length 0"));
    println!("Reached");
}

#[test]
fn mem_safety() {
    let short = serde_json::from_str::<De300<String>>("[\"1\", \"2\", \"3\", \"4\"]");
    let message = short.err().unwrap().to_string();
    assert!(message.contains("invalid length 4"));
    println!("Reached");
}

/// One reference-counted string for each test that counts references, so
/// that the tests can run side by side.
static RC_STRINGS: [OnceLock<Arc<String>>; 4] =
    [OnceLock::new(), OnceLock::new(), OnceLock::new(), OnceLock::new()];

fn rc_string(k: usize) -> &'static Arc<String> {
    RC_STRINGS[k].get_or_init(|| Arc::new("foo".to_string()))
}

/// Holds a strong reference to the string `K` once it is deserialized.
struct Foo<const K: usize>(Arc<String>);

impl<'de, const K: usize> Deserialize<'de> for Foo<K> {
    fn deserialize<D: Deserializer<'de>>(deserializer: D) -> Result<Self, D::Error> {
        deserializer.deserialize_str(SimpleVisitor)?;
        Ok(Foo(Arc::clone(rc_string(K))))
    }
}

/// Consumes a string and skips it.
struct SimpleVisitor;

impl<'de> Visitor<'de> for SimpleVisitor {
    type Value = ();

    fn expecting(&self, formatter: &mut std::fmt::Formatter) -> std::fmt::Result {
        formatter.write_str("a string")
    }

    fn visit_str<E>(self, _: &str) -> Result<Self::Value, E> {
        Ok(())
    }
}

#[test]
fn deserializing_failure_mem_leak() {
    assert_eq!(Arc::strong_count(rc_string(0)), 1);

    // Only 3 of the 5 elements are there.
    let faulty = serde_json::from_str::<HashMap<String, De5<Foo<0>>>>(
        "{\"arr_big\": [\"asd\", \"asd\", \"asd\"]}",
    );
    let message = faulty.err().unwrap().to_string();
    assert!(message.contains("invalid length 3"));

    // The three references that were made are gone again.
    assert_eq!(Arc::strong_count(rc_string(0)), 1);
}

#[test]
fn deserializing_success_holds_every_element() {
    let complete =
        serde_json::from_str::<De5<Foo<1>>>("[\"a\", \"b\", \"c\", \"d\", \"e\"]").unwrap();
    assert_eq!(Arc::strong_count(rc_string(1)), 6);
    assert!(complete.0.iter().all(|foo| Arc::ptr_eq(&foo.0, rc_string(1))));
    drop(complete);
    assert_eq!(Arc::strong_count(rc_string(1)), 1);
}

#[test]
fn failing_element_releases_the_elements_before_it() {
    let faulty = serde_json::from_str::<De5<Foo<2>>>("[\"a\", \"b\", 3, \"d\", \"e\"]");
    assert!(faulty.is_err());
    assert_eq!(Arc::strong_count(rc_string(2)), 1);
}

#[test]
fn longer_input_is_not_read_past_the_length() {
    let faulty =
        serde_json::from_str::<De5<Foo<3>>>("[\"a\", \"b\", \"c\", \"d\", \"e\", \"f\"]");
    assert!(faulty.is_err());
    assert_eq!(Arc::strong_count(rc_string(3)), 1);
}

#[test]
fn every_shorter_input_reports_its_length() {
    for present in 0..5 {
        let elements: Vec<String> = (0..present).map(|i| i.to_string()).collect();
        let json = format!("[{}]", elements.join(","));
        let outcome = serde_json::from_str::<De5<u32>>(&json);
        let message = outcome.err().unwrap().to_string();
        assert!(message.contains(&format!("invalid length {}", present)));
    }
    let complete = serde_json::from_str::<De5<u32>>("[0,1,2,3,4]").unwrap();
    assert_eq!(complete.0, [0, 1, 2, 3, 4]);
}

#[test]
fn serialize_writes_a_tuple_of_the_length() {
    let five = [1u8, 2, 3, 4, 5];
    assert_eq!(serde_json::to_string(&Ser5(&five)).unwrap(), "[1,2,3,4,5]");
    assert_eq!(serde_json::to_value(Ser5(&five)).unwrap().as_array().unwrap().len(), 5);
}
