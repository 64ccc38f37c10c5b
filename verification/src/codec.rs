//! Structured-value codecs for the protocol's payload shapes.
//!
//! Each shape has a mathematical encoder and decoder over [`SpecValue`],
//! executable functions proved equal to them, and round-trip lemmas:
//! decoding an encoded value gives the value back. Identifier texts go
//! through the named `uuid_text`/`uuid_of_text` forms, so the round
//! trips assume only that those invert each other, which the trusted
//! identifier wrappers state of each identifier they format.

use vstd::prelude::*;

use crate::Addr;
use crate::protocol::HandshakeError;
use crate::protocol::HandshakeProtocol;
use crate::protocol::Message;
use crate::protocol::MessageType;
use crate::protocol::MessageV;
use crate::protocol::message_type_tag;
use crate::protocol::NodeInfo;
use crate::protocol::NodeInfoV;
use crate::protocol::PeerInfo;
use crate::protocol::PeerInfoV;
use crate::protocol::HandshakeResponse;
use crate::protocol::HandshakeResponseV;
use crate::protocol::format_uuid;
use crate::protocol::parse_uuid;
use crate::protocol::tag_text;
use crate::protocol::tag_of_text;
use crate::protocol::uuid_text;
use crate::protocol::uuid_of_text;
use crate::text::addr_text;
use crate::text::addr_of_text;
use crate::text::addr_to_string;
use crate::text::parse_addr;
use crate::text::lemma_addr_text_round_trip;
use crate::value::AppValue;
use crate::value::SpecValue;
use crate::value::lookup_field;
use crate::value::spec_get_field;
use crate::value::rep_list;
use crate::value::rep_fields;
use crate::value::lemma_rep_list_props;
use crate::value::lemma_rep_fields_props;
use crate::value::value_field;
use crate::value::value_as_text;
use crate::value::value_as_uint;

verus! {

/// Texts as a list of text values.
pub open spec fn text_list(ss: Seq<Seq<char>>) -> Seq<SpecValue> {
    ss.map_values(|s: Seq<char>| SpecValue::Text(s))
}

/// Text pairs as object bindings with text values.
pub open spec fn text_pairs(m: Seq<(Seq<char>, Seq<char>)>) -> Seq<(Seq<char>, SpecValue)> {
    m.map_values(|p: (Seq<char>, Seq<char>)| (p.0, SpecValue::Text(p.1)))
}

/// The texts a list of values holds, if every element is text.
pub open spec fn texts_of(items: Seq<SpecValue>) -> Option<Seq<Seq<char>>>
    decreases items.len(),
{
    if items.len() == 0 {
        Some(Seq::empty())
    } else {
        match texts_of(items.drop_last()) {
            None => None,
            Some(front) => match items.last() {
                SpecValue::Text(s) => Some(front.push(s)),
                _ => None,
            },
        }
    }
}

/// The text pairs an object's bindings hold, if every value is text.
pub open spec fn text_pairs_of(fields: Seq<(Seq<char>, SpecValue)>) -> Option<
    Seq<(Seq<char>, Seq<char>)>,
>
    decreases fields.len(),
{
    if fields.len() == 0 {
        Some(Seq::empty())
    } else {
        match text_pairs_of(fields.drop_last()) {
            None => None,
            Some(front) => match fields.last().1 {
                SpecValue::Text(s) => Some(front.push((fields.last().0, s))),
                _ => None,
            },
        }
    }
}

/// Encoding texts and reading them back gives the texts.
pub proof fn lemma_text_list_round_trip(ss: Seq<Seq<char>>)
    ensures
        texts_of(text_list(ss)) == Some(ss),
    decreases ss.len(),
{
    if ss.len() == 0 {
        assert(text_list(ss) =~= Seq::<SpecValue>::empty());
        assert(ss =~= Seq::<Seq<char>>::empty());
    } else {
        lemma_text_list_round_trip(ss.drop_last());
        assert(text_list(ss).drop_last() =~= text_list(ss.drop_last()));
        assert(text_list(ss).last() == SpecValue::Text(ss.last()));
        assert(ss.drop_last().push(ss.last()) =~= ss);
    }
}

/// Encoding text pairs and reading them back gives the pairs.
pub proof fn lemma_text_pairs_round_trip(m: Seq<(Seq<char>, Seq<char>)>)
    ensures
        text_pairs_of(text_pairs(m)) == Some(m),
    decreases m.len(),
{
    if m.len() == 0 {
        assert(text_pairs(m) =~= Seq::<(Seq<char>, SpecValue)>::empty());
        assert(m =~= Seq::<(Seq<char>, Seq<char>)>::empty());
    } else {
        lemma_text_pairs_round_trip(m.drop_last());
        assert(text_pairs(m).drop_last() =~= text_pairs(m.drop_last()));
        assert(text_pairs(m).last() == (m.last().0, SpecValue::Text(m.last().1)));
        assert(m.drop_last().push(m.last()) =~= m);
    }
}

/// The text under a field, if the field is there and holds text.
pub open spec fn field_text(v: SpecValue, name: Seq<char>) -> Option<Seq<char>> {
    match spec_get_field(v, name) {
        Some(SpecValue::Text(s)) => Some(s),
        _ => None,
    }
}

/// The identifier under a field, if the field holds identifier text.
pub open spec fn field_uuid(v: SpecValue, name: Seq<char>) -> Option<u128> {
    match field_text(v, name) {
        Some(t) => uuid_of_text(t),
        None => None,
    }
}

/// The endpoint under a field, if the field holds endpoint text.
pub open spec fn field_addr(v: SpecValue, name: Seq<char>) -> Option<Addr> {
    match field_text(v, name) {
        Some(t) => addr_of_text(t),
        None => None,
    }
}

/// The number under a field, if the field holds one.
pub open spec fn field_uint(v: SpecValue, name: Seq<char>) -> Option<u64> {
    match spec_get_field(v, name) {
        Some(SpecValue::UInt(n)) => Some(n),
        _ => None,
    }
}

/// The boolean under a field, if the field holds one.
pub open spec fn field_bool(v: SpecValue, name: Seq<char>) -> Option<bool> {
    match spec_get_field(v, name) {
        Some(SpecValue::Bool(b)) => Some(b),
        _ => None,
    }
}

/// The text under a field, if the field is there and holds text.
pub fn get_text_field<'a>(v: &'a AppValue, name: &str) -> (r: Option<&'a String>)
    ensures
        match r {
            Some(s) => field_text(v@, name@) == Some(s@),
            None => field_text(v@, name@) is None,
        },
{
    match value_field(v, name) {
        Some(f) => value_as_text(f),
        None => None,
    }
}

/// The identifier under a field, if the field holds identifier text.
pub fn get_uuid_field(v: &AppValue, name: &str) -> (r: Option<u128>)
    ensures
        r == field_uuid(v@, name@),
{
    match get_text_field(v, name) {
        Some(s) => parse_uuid(s.as_str()),
        None => None,
    }
}

/// The endpoint under a field, if the field holds endpoint text.
pub fn get_addr_field(v: &AppValue, name: &str) -> (r: Option<Addr>)
    ensures
        r == field_addr(v@, name@),
{
    match get_text_field(v, name) {
        Some(s) => parse_addr(s.as_str()),
        None => None,
    }
}

/// The number under a field, if the field holds one.
pub fn get_uint_field(v: &AppValue, name: &str) -> (r: Option<u64>)
    ensures
        r == field_uint(v@, name@),
{
    match value_field(v, name) {
        Some(f) => value_as_uint(f),
        None => None,
    }
}

/// The boolean under a field, if the field holds one.
pub fn get_bool_field(v: &AppValue, name: &str) -> (r: Option<bool>)
    ensures
        r == field_bool(v@, name@),
{
    match value_field(v, name) {
        Some(f) => match f {
            AppValue::Bool(b) => Some(*b),
            _ => None,
        },
        None => None,
    }
}

/// Texts as a list of text values.
pub fn strings_to_values(ss: &Vec<String>) -> (r: Vec<AppValue>)
    ensures
        rep_list(r@) == text_list(ss.deep_view()),
{
    let mut out: Vec<AppValue> = Vec::new();
    let n = ss.len();
    let mut i: usize = 0;
    while i < n
        invariant
            n == ss@.len(),
            0 <= i <= n,
            out@.len() == i,
            forall|j: int| 0 <= j < i ==> (#[trigger] out@[j])@ == SpecValue::Text(ss@[j]@),
        decreases n - i,
    {
        out.push(AppValue::Text(ss[i].clone()));
        i = i + 1;
    }
    proof {
        lemma_rep_list_props(out@);
        assert(rep_list(out@) =~= text_list(ss.deep_view()));
    }
    out
}

/// The texts a list of values holds, if every element is text.
pub fn values_to_strings(items: &Vec<AppValue>) -> (r: Option<Vec<String>>)
    ensures
        match r {
            Some(ss) => texts_of(rep_list(items@)) == Some(ss.deep_view()),
            None => texts_of(rep_list(items@)) is None,
        },
{
    let mut out: Vec<String> = Vec::new();
    let n = items.len();
    let mut i: usize = 0;
    proof {
        lemma_rep_list_props(items@);
        assert(rep_list(items@).take(0) =~= Seq::<SpecValue>::empty());
    }
    while i < n
        invariant
            n == items@.len(),
            0 <= i <= n,
            out@.len() == i,
            rep_list(items@).len() == n,
            forall|j: int| 0 <= j < n ==> #[trigger] rep_list(items@)[j] == items@[j]@,
            texts_of(rep_list(items@).take(i as int)) == Some(out.deep_view()),
        decreases n - i,
    {
        let ghost pre = rep_list(items@).take(i as int);
        let ghost cur = rep_list(items@).take(i + 1);
        proof {
            assert(cur.drop_last() =~= pre);
            assert(cur.last() == items@[i as int]@);
        }
        match &items[i] {
            AppValue::Text(s) => {
                out.push(s.clone());
                proof {
                    assert(out.deep_view() =~= texts_of(cur).unwrap());
                }
            },
            _ => {
                proof {
                    lemma_texts_of_flawed_prefix(rep_list(items@), i + 1);
                }
                return None;
            },
        }
        i = i + 1;
    }
    proof {
        assert(rep_list(items@).take(n as int) =~= rep_list(items@));
    }
    Some(out)
}

/// If some prefix of a list fails to read as texts, the list fails too.
proof fn lemma_texts_of_flawed_prefix(items: Seq<SpecValue>, i: int)
    requires
        0 < i <= items.len(),
        texts_of(items.take(i)) is None,
    ensures
        texts_of(items) is None,
    decreases items.len() - i,
{
    if i == items.len() {
        assert(items.take(i) =~= items);
    } else {
        assert(items.take(i + 1).drop_last() =~= items.take(i));
        lemma_texts_of_flawed_prefix(items, i + 1);
    }
}

/// Text pairs as object bindings with text values.
pub fn string_pairs_to_fields(m: &Vec<(String, String)>) -> (r: Vec<(String, AppValue)>)
    ensures
        rep_fields(r@) == text_pairs(m.deep_view()),
{
    let mut out: Vec<(String, AppValue)> = Vec::new();
    let n = m.len();
    let mut i: usize = 0;
    while i < n
        invariant
            n == m@.len(),
            0 <= i <= n,
            out@.len() == i,
            forall|j: int|
                0 <= j < i ==> (#[trigger] out@[j]).0@ == m@[j].0@ && out@[j].1@ == SpecValue::Text(
                    m@[j].1@,
                ),
        decreases n - i,
    {
        out.push((m[i].0.clone(), AppValue::Text(m[i].1.clone())));
        i = i + 1;
    }
    proof {
        lemma_rep_fields_props(out@);
        assert(rep_fields(out@) =~= text_pairs(m.deep_view()));
    }
    out
}

/// The text pairs an object's bindings hold, if every value is text.
pub fn fields_to_string_pairs(fields: &Vec<(String, AppValue)>) -> (r: Option<
    Vec<(String, String)>,
>)
    ensures
        match r {
            Some(m) => text_pairs_of(rep_fields(fields@)) == Some(m.deep_view()),
            None => text_pairs_of(rep_fields(fields@)) is None,
        },
{
    let mut out: Vec<(String, String)> = Vec::new();
    let n = fields.len();
    let mut i: usize = 0;
    proof {
        lemma_rep_fields_props(fields@);
        assert(rep_fields(fields@).take(0) =~= Seq::<(Seq<char>, SpecValue)>::empty());
    }
    while i < n
        invariant
            n == fields@.len(),
            0 <= i <= n,
            out@.len() == i,
            rep_fields(fields@).len() == n,
            forall|j: int|
                0 <= j < n ==> #[trigger] rep_fields(fields@)[j] == (
                    fields@[j].0@,
                    fields@[j].1@,
                ),
            text_pairs_of(rep_fields(fields@).take(i as int)) == Some(out.deep_view()),
        decreases n - i,
    {
        let ghost pre = rep_fields(fields@).take(i as int);
        let ghost cur = rep_fields(fields@).take(i + 1);
        proof {
            assert(cur.drop_last() =~= pre);
            assert(cur.last() == (fields@[i as int].0@, fields@[i as int].1@));
        }
        match &fields[i].1 {
            AppValue::Text(s) => {
                out.push((fields[i].0.clone(), s.clone()));
                proof {
                    assert(out.deep_view() =~= text_pairs_of(cur).unwrap());
                }
            },
            _ => {
                proof {
                    lemma_text_pairs_of_flawed_prefix(rep_fields(fields@), i + 1);
                }
                return None;
            },
        }
        i = i + 1;
    }
    proof {
        assert(rep_fields(fields@).take(n as int) =~= rep_fields(fields@));
    }
    Some(out)
}

/// If some prefix of the bindings fails to read as pairs, all of them fail.
proof fn lemma_text_pairs_of_flawed_prefix(fields: Seq<(Seq<char>, SpecValue)>, i: int)
    requires
        0 < i <= fields.len(),
        text_pairs_of(fields.take(i)) is None,
    ensures
        text_pairs_of(fields) is None,
    decreases fields.len() - i,
{
    if i == fields.len() {
        assert(fields.take(i) =~= fields);
    } else {
        assert(fields.take(i + 1).drop_last() =~= fields.take(i));
        lemma_text_pairs_of_flawed_prefix(fields, i + 1);
    }
}

/// The wire form of a node description.
pub open spec fn node_info_to_value(i: NodeInfoV) -> SpecValue {
    SpecValue::Object(
        seq![
            ("id"@, SpecValue::Text(uuid_text(i.id))),
            ("name"@, SpecValue::Text(i.name)),
            ("version"@, SpecValue::Text(i.version)),
            ("listen_addr"@, SpecValue::Text(addr_text(i.listen_addr))),
            ("capabilities"@, SpecValue::List(text_list(i.capabilities))),
            ("metadata"@, SpecValue::Object(text_pairs(i.metadata))),
            ("network_id"@, SpecValue::Text(i.network_id)),
        ],
    )
}

/// The list under a field, if the field holds one.
pub open spec fn field_list(v: SpecValue, name: Seq<char>) -> Option<Seq<SpecValue>> {
    match spec_get_field(v, name) {
        Some(SpecValue::List(items)) => Some(items),
        _ => None,
    }
}

/// The object bindings under a field, if the field holds an object.
pub open spec fn field_object(v: SpecValue, name: Seq<char>) -> Option<
    Seq<(Seq<char>, SpecValue)>,
> {
    match spec_get_field(v, name) {
        Some(SpecValue::Object(fields)) => Some(fields),
        _ => None,
    }
}

/// The node description a wire value denotes, if it has every field.
pub open spec fn node_info_of_value(v: SpecValue) -> Option<NodeInfoV> {
    if field_uuid(v, "id"@) is Some && field_text(v, "name"@) is Some && field_text(v, "version"@)
        is Some && field_addr(v, "listen_addr"@) is Some && (match field_list(
        v,
        "capabilities"@,
    ) {
        Some(items) => texts_of(items) is Some,
        None => false,
    }) && (match field_object(v, "metadata"@) {
        Some(fields) => text_pairs_of(fields) is Some,
        None => false,
    }) && field_text(v, "network_id"@) is Some {
        Some(
            NodeInfoV {
                id: field_uuid(v, "id"@)->Some_0,
                name: field_text(v, "name"@)->Some_0,
                version: field_text(v, "version"@)->Some_0,
                listen_addr: field_addr(v, "listen_addr"@)->Some_0,
                capabilities: texts_of(field_list(v, "capabilities"@)->Some_0)->Some_0,
                metadata: text_pairs_of(field_object(v, "metadata"@)->Some_0)->Some_0,
                network_id: field_text(v, "network_id"@)->Some_0,
            },
        )
    } else {
        None
    }
}

/// Encodes a node description for the wire.
pub fn encode_node_info(i: &NodeInfo) -> (r: AppValue)
    ensures
        r@ == node_info_to_value(i@),
        uuid_of_text(uuid_text(i@.id)) == Some(i@.id),
{
    let mut fields: Vec<(String, AppValue)> = Vec::new();
    fields.push(("id".to_owned(), AppValue::Text(format_uuid(i.id))));
    fields.push(("name".to_owned(), AppValue::Text(i.name.clone())));
    fields.push(("version".to_owned(), AppValue::Text(i.version.clone())));
    fields.push(("listen_addr".to_owned(), AppValue::Text(addr_to_string(&i.listen_addr))));
    fields.push(("capabilities".to_owned(), AppValue::List(strings_to_values(&i.capabilities))));
    fields.push(("metadata".to_owned(), AppValue::Object(string_pairs_to_fields(&i.metadata))));
    fields.push(("network_id".to_owned(), AppValue::Text(i.network_id.clone())));
    let r = AppValue::Object(fields);
    proof {
        lemma_rep_fields_props(fields@);
        assert(r@->Object_0 =~= node_info_to_value(i@)->Object_0);
        assert(r@ =~= node_info_to_value(i@));
    }
    r
}

/// Decodes a node description from the wire.
pub fn decode_node_info(v: &AppValue) -> (r: Option<NodeInfo>)
    ensures
        match r {
            Some(i) => node_info_of_value(v@) == Some(i@),
            None => node_info_of_value(v@) is None,
        },
{
    let id = match get_uuid_field(v, "id") {
        Some(u) => u,
        None => {
            return None;
        },
    };
    let name = match get_text_field(v, "name") {
        Some(s) => s.clone(),
        None => {
            return None;
        },
    };
    let version = match get_text_field(v, "version") {
        Some(s) => s.clone(),
        None => {
            return None;
        },
    };
    let listen_addr = match get_addr_field(v, "listen_addr") {
        Some(a) => a,
        None => {
            return None;
        },
    };
    let capabilities = match value_field(v, "capabilities") {
        Some(AppValue::List(items)) => match values_to_strings(items) {
            Some(ss) => ss,
            None => {
                return None;
            },
        },
        _ => {
            return None;
        },
    };
    let metadata = match value_field(v, "metadata") {
        Some(AppValue::Object(fields)) => match fields_to_string_pairs(fields) {
            Some(m) => m,
            None => {
                return None;
            },
        },
        _ => {
            return None;
        },
    };
    let network_id = match get_text_field(v, "network_id") {
        Some(s) => s.clone(),
        None => {
            return None;
        },
    };
    let r = NodeInfo { id, name, version, listen_addr, capabilities, metadata, network_id };
    proof {
        assert(node_info_of_value(v@) == Some(r@)) by {
            assert(r@ =~= node_info_of_value(v@)->Some_0);
        }
    }
    Some(r)
}

/// Reading a description's wire form back gives the description,
/// provided its identifier text reads back as the identifier.
pub proof fn lemma_node_info_round_trip(i: NodeInfoV)
    requires
        uuid_of_text(uuid_text(i.id)) == Some(i.id),
    ensures
        node_info_of_value(node_info_to_value(i)) == Some(i),
{
    let v = node_info_to_value(i);
    lemma_node_info_field_names(i);
    lemma_addr_text_round_trip(i.listen_addr);
    lemma_text_list_round_trip(i.capabilities);
    lemma_text_pairs_round_trip(i.metadata);
    assert(node_info_of_value(v)->Some_0 =~= i);
}

/// The seven field names of a node description are pairwise distinct,
/// so each lookup in the encoded object finds its own field.
proof fn lemma_node_info_field_names(i: NodeInfoV)
    ensures
        spec_get_field(node_info_to_value(i), "id"@) == Some(SpecValue::Text(uuid_text(i.id))),
        spec_get_field(node_info_to_value(i), "name"@) == Some(SpecValue::Text(i.name)),
        spec_get_field(node_info_to_value(i), "version"@) == Some(SpecValue::Text(i.version)),
        spec_get_field(node_info_to_value(i), "listen_addr"@) == Some(
            SpecValue::Text(addr_text(i.listen_addr)),
        ),
        spec_get_field(node_info_to_value(i), "capabilities"@) == Some(
            SpecValue::List(text_list(i.capabilities)),
        ),
        spec_get_field(node_info_to_value(i), "metadata"@) == Some(
            SpecValue::Object(text_pairs(i.metadata)),
        ),
        spec_get_field(node_info_to_value(i), "network_id"@) == Some(
            SpecValue::Text(i.network_id),
        ),
{
    reveal_strlit("id");
    reveal_strlit("name");
    reveal_strlit("version");
    reveal_strlit("listen_addr");
    reveal_strlit("capabilities");
    reveal_strlit("metadata");
    reveal_strlit("network_id");
    assert("id"@.len() == 2);
    assert("name"@.len() == 4);
    assert("version"@.len() == 7);
    assert("listen_addr"@.len() == 11);
    assert("capabilities"@.len() == 12);
    assert("metadata"@.len() == 8);
    assert("network_id"@.len() == 10);
    reveal_with_fuel(lookup_field, 9);
}

/// The wire form of a discovery entry.
pub open spec fn peer_info_to_value(p: PeerInfoV) -> SpecValue {
    SpecValue::Object(
        seq![
            ("id"@, SpecValue::Text(uuid_text(p.id))),
            ("addr"@, SpecValue::Text(addr_text(p.addr))),
            ("last_seen"@, SpecValue::UInt(p.last_seen)),
            ("capabilities"@, SpecValue::List(text_list(p.capabilities))),
        ],
    )
}

/// The discovery entry a wire value denotes, if it has every field.
pub open spec fn peer_info_of_value(v: SpecValue) -> Option<PeerInfoV> {
    if field_uuid(v, "id"@) is Some && field_addr(v, "addr"@) is Some && field_uint(
        v,
        "last_seen"@,
    ) is Some && (match field_list(v, "capabilities"@) {
        Some(items) => texts_of(items) is Some,
        None => false,
    }) {
        Some(
            PeerInfoV {
                id: field_uuid(v, "id"@)->Some_0,
                addr: field_addr(v, "addr"@)->Some_0,
                last_seen: field_uint(v, "last_seen"@)->Some_0,
                capabilities: texts_of(field_list(v, "capabilities"@)->Some_0)->Some_0,
            },
        )
    } else {
        None
    }
}

/// Encodes a discovery entry for the wire.
pub fn encode_peer_info(p: &PeerInfo) -> (r: AppValue)
    ensures
        r@ == peer_info_to_value(p@),
        uuid_of_text(uuid_text(p@.id)) == Some(p@.id),
{
    let mut fields: Vec<(String, AppValue)> = Vec::new();
    fields.push(("id".to_owned(), AppValue::Text(format_uuid(p.id))));
    fields.push(("addr".to_owned(), AppValue::Text(addr_to_string(&p.addr))));
    fields.push(("last_seen".to_owned(), AppValue::UInt(p.last_seen)));
    fields.push(("capabilities".to_owned(), AppValue::List(strings_to_values(&p.capabilities))));
    let r = AppValue::Object(fields);
    proof {
        lemma_rep_fields_props(fields@);
        assert(r@->Object_0 =~= peer_info_to_value(p@)->Object_0);
        assert(r@ =~= peer_info_to_value(p@));
    }
    r
}

/// Decodes a discovery entry from the wire.
pub fn decode_peer_info(v: &AppValue) -> (r: Option<PeerInfo>)
    ensures
        match r {
            Some(p) => peer_info_of_value(v@) == Some(p@),
            None => peer_info_of_value(v@) is None,
        },
{
    let id = match get_uuid_field(v, "id") {
        Some(u) => u,
        None => {
            return None;
        },
    };
    let addr = match get_addr_field(v, "addr") {
        Some(a) => a,
        None => {
            return None;
        },
    };
    let last_seen = match get_uint_field(v, "last_seen") {
        Some(n) => n,
        None => {
            return None;
        },
    };
    let capabilities = match value_field(v, "capabilities") {
        Some(AppValue::List(items)) => match values_to_strings(items) {
            Some(ss) => ss,
            None => {
                return None;
            },
        },
        _ => {
            return None;
        },
    };
    let r = PeerInfo { id, addr, last_seen, capabilities };
    proof {
        assert(peer_info_of_value(v@) == Some(r@)) by {
            assert(r@ =~= peer_info_of_value(v@)->Some_0);
        }
    }
    Some(r)
}

/// The four field names of a discovery entry are pairwise distinct.
proof fn lemma_peer_info_field_names(p: PeerInfoV)
    ensures
        spec_get_field(peer_info_to_value(p), "id"@) == Some(SpecValue::Text(uuid_text(p.id))),
        spec_get_field(peer_info_to_value(p), "addr"@) == Some(SpecValue::Text(addr_text(p.addr))),
        spec_get_field(peer_info_to_value(p), "last_seen"@) == Some(SpecValue::UInt(p.last_seen)),
        spec_get_field(peer_info_to_value(p), "capabilities"@) == Some(
            SpecValue::List(text_list(p.capabilities)),
        ),
{
    reveal_strlit("id");
    reveal_strlit("addr");
    reveal_strlit("last_seen");
    reveal_strlit("capabilities");
    assert("id"@.len() == 2);
    assert("addr"@.len() == 4);
    assert("last_seen"@.len() == 9);
    assert("capabilities"@.len() == 12);
    reveal_with_fuel(lookup_field, 6);
}

/// Reading an entry's wire form back gives the entry, provided its
/// identifier text reads back as the identifier.
pub proof fn lemma_peer_info_round_trip(p: PeerInfoV)
    requires
        uuid_of_text(uuid_text(p.id)) == Some(p.id),
    ensures
        peer_info_of_value(peer_info_to_value(p)) == Some(p),
{
    lemma_peer_info_field_names(p);
    lemma_addr_text_round_trip(p.addr);
    lemma_text_list_round_trip(p.capabilities);
    assert(peer_info_of_value(peer_info_to_value(p))->Some_0 =~= p);
}

/// The wire form of a discovery entry list.
pub open spec fn peer_info_list_to_value(ps: Seq<PeerInfoV>) -> SpecValue {
    SpecValue::List(ps.map_values(|p: PeerInfoV| peer_info_to_value(p)))
}

/// The entries a list of wire values denotes, if each one decodes.
pub open spec fn peer_infos_of(items: Seq<SpecValue>) -> Option<Seq<PeerInfoV>>
    decreases items.len(),
{
    if items.len() == 0 {
        Some(Seq::empty())
    } else {
        match peer_infos_of(items.drop_last()) {
            None => None,
            Some(front) => match peer_info_of_value(items.last()) {
                Some(p) => Some(front.push(p)),
                None => None,
            },
        }
    }
}

/// Encodes a list of discovery entries for the wire.
pub fn encode_peer_info_list(ps: &Vec<PeerInfo>) -> (r: AppValue)
    ensures
        r@ == peer_info_list_to_value(ps.deep_view()),
        forall|j: int|
            0 <= j < ps.deep_view().len() ==> uuid_of_text(
                uuid_text(#[trigger] ps.deep_view()[j].id),
            ) == Some(ps.deep_view()[j].id),
{
    let mut out: Vec<AppValue> = Vec::new();
    let n = ps.len();
    let mut i: usize = 0;
    while i < n
        invariant
            n == ps@.len(),
            0 <= i <= n,
            out@.len() == i,
            forall|j: int| 0 <= j < i ==> (#[trigger] out@[j])@ == peer_info_to_value(ps@[j]@),
            forall|j: int|
                0 <= j < i ==> uuid_of_text(uuid_text(#[trigger] ps@[j]@.id)) == Some(ps@[j]@.id),
        decreases n - i,
    {
        let item = encode_peer_info(&ps[i]);
        out.push(item);
        i = i + 1;
    }
    let r = AppValue::List(out);
    proof {
        lemma_rep_list_props(out@);
        assert(r@->List_0 =~= peer_info_list_to_value(ps.deep_view())->List_0);
        assert(r@ =~= peer_info_list_to_value(ps.deep_view()));
    }
    r
}

/// Decodes a list of discovery entries from the wire.
pub fn decode_peer_info_list(v: &AppValue) -> (r: Option<Vec<PeerInfo>>)
    ensures
        match r {
            Some(ps) => (v@ is List && peer_infos_of(v@->List_0) == Some(ps.deep_view())),
            None => (!(v@ is List) || peer_infos_of(v@->List_0) is None),
        },
{
    let items = match v {
        AppValue::List(items) => items,
        _ => {
            return None;
        },
    };
    let mut out: Vec<PeerInfo> = Vec::new();
    let n = items.len();
    let mut i: usize = 0;
    proof {
        lemma_rep_list_props(items@);
        assert(rep_list(items@).take(0) =~= Seq::<SpecValue>::empty());
    }
    while i < n
        invariant
            n == items@.len(),
            0 <= i <= n,
            out@.len() == i,
            rep_list(items@).len() == n,
            forall|j: int| 0 <= j < n ==> #[trigger] rep_list(items@)[j] == items@[j]@,
            peer_infos_of(rep_list(items@).take(i as int)) == Some(out.deep_view()),
            v@ == SpecValue::List(rep_list(items@)),
        decreases n - i,
    {
        let ghost pre = rep_list(items@).take(i as int);
        let ghost cur = rep_list(items@).take(i + 1);
        proof {
            assert(cur.drop_last() =~= pre);
            assert(cur.last() == items@[i as int]@);
        }
        match decode_peer_info(&items[i]) {
            Some(p) => {
                out.push(p);
                proof {
                    assert(out.deep_view() =~= peer_infos_of(cur).unwrap());
                }
            },
            None => {
                proof {
                    lemma_peer_infos_of_flawed_prefix(rep_list(items@), i + 1);
                }
                return None;
            },
        }
        i = i + 1;
    }
    proof {
        assert(rep_list(items@).take(n as int) =~= rep_list(items@));
    }
    Some(out)
}

/// If some prefix of a list fails to read as entries, the list fails too.
proof fn lemma_peer_infos_of_flawed_prefix(items: Seq<SpecValue>, i: int)
    requires
        0 < i <= items.len(),
        peer_infos_of(items.take(i)) is None,
    ensures
        peer_infos_of(items) is None,
    decreases items.len() - i,
{
    if i == items.len() {
        assert(items.take(i) =~= items);
    } else {
        assert(items.take(i + 1).drop_last() =~= items.take(i));
        lemma_peer_infos_of_flawed_prefix(items, i + 1);
    }
}

/// An optional text as a wire value: the text, or null.
pub open spec fn opt_text_value(o: Option<Seq<char>>) -> SpecValue {
    match o {
        Some(s) => SpecValue::Text(s),
        None => SpecValue::Null,
    }
}

/// An optional endpoint as a wire value: its text, or null.
pub open spec fn opt_addr_value(o: Option<Addr>) -> SpecValue {
    match o {
        Some(a) => SpecValue::Text(addr_text(a)),
        None => SpecValue::Null,
    }
}

/// An optional identifier as a wire value: its text, or null.
pub open spec fn opt_uuid_value(o: Option<u128>) -> SpecValue {
    match o {
        Some(u) => SpecValue::Text(uuid_text(u)),
        None => SpecValue::Null,
    }
}

/// An optional 32-bit number as a wire value: the number, or null.
pub open spec fn opt_u32_value(o: Option<u32>) -> SpecValue {
    match o {
        Some(n) => SpecValue::UInt(n as u64),
        None => SpecValue::Null,
    }
}

/// The optional text a wire value denotes: null or text, else nothing.
pub open spec fn opt_text_of(v: SpecValue) -> Option<Option<Seq<char>>> {
    match v {
        SpecValue::Null => Some(None),
        SpecValue::Text(s) => Some(Some(s)),
        _ => None,
    }
}

/// The optional endpoint a wire value denotes.
pub open spec fn opt_addr_of(v: SpecValue) -> Option<Option<Addr>> {
    match v {
        SpecValue::Null => Some(None),
        SpecValue::Text(s) => match addr_of_text(s) {
            Some(a) => Some(Some(a)),
            None => None,
        },
        _ => None,
    }
}

/// The optional identifier a wire value denotes.
pub open spec fn opt_uuid_of(v: SpecValue) -> Option<Option<u128>> {
    match v {
        SpecValue::Null => Some(None),
        SpecValue::Text(s) => match uuid_of_text(s) {
            Some(u) => Some(Some(u)),
            None => None,
        },
        _ => None,
    }
}

/// The optional 32-bit number a wire value denotes.
pub open spec fn opt_u32_of(v: SpecValue) -> Option<Option<u32>> {
    match v {
        SpecValue::Null => Some(None),
        SpecValue::UInt(n) => if n <= u32::MAX as u64 {
            Some(Some(n as u32))
        } else {
            None
        },
        _ => None,
    }
}

/// The wire form of a handshake response payload.
pub open spec fn handshake_response_to_value(h: HandshakeResponseV) -> SpecValue {
    SpecValue::Object(
        seq![
            ("node_info"@, node_info_to_value(h.node_info)),
            ("success"@, SpecValue::Bool(h.success)),
            ("error_message"@, opt_text_value(h.error_message)),
            ("public_addr"@, opt_addr_value(h.public_addr)),
        ],
    )
}

/// The handshake response a wire value denotes, if it has every field.
pub open spec fn handshake_response_of_value(v: SpecValue) -> Option<HandshakeResponseV> {
    if (match spec_get_field(v, "node_info"@) {
        Some(nv) => node_info_of_value(nv) is Some,
        None => false,
    }) && field_bool(v, "success"@) is Some && (match spec_get_field(v, "error_message"@) {
        Some(x) => opt_text_of(x) is Some,
        None => false,
    }) && (match spec_get_field(v, "public_addr"@) {
        Some(x) => opt_addr_of(x) is Some,
        None => false,
    }) {
        Some(
            HandshakeResponseV {
                node_info: node_info_of_value(spec_get_field(v, "node_info"@)->Some_0)->Some_0,
                success: field_bool(v, "success"@)->Some_0,
                error_message: opt_text_of(spec_get_field(v, "error_message"@)->Some_0)->Some_0,
                public_addr: opt_addr_of(spec_get_field(v, "public_addr"@)->Some_0)->Some_0,
            },
        )
    } else {
        None
    }
}

/// Encodes a handshake response for the wire.
pub fn encode_handshake_response(h: &HandshakeResponse) -> (r: AppValue)
    ensures
        r@ == handshake_response_to_value(h@),
        uuid_of_text(uuid_text(h@.node_info.id)) == Some(h@.node_info.id),
{
    let mut fields: Vec<(String, AppValue)> = Vec::new();
    fields.push(("node_info".to_owned(), encode_node_info(&h.node_info)));
    fields.push(("success".to_owned(), AppValue::Bool(h.success)));
    let err_v = match &h.error_message {
        Some(s) => AppValue::Text(s.clone()),
        None => AppValue::Null,
    };
    fields.push(("error_message".to_owned(), err_v));
    let addr_v = match &h.public_addr {
        Some(a) => AppValue::Text(addr_to_string(a)),
        None => AppValue::Null,
    };
    fields.push(("public_addr".to_owned(), addr_v));
    let r = AppValue::Object(fields);
    proof {
        lemma_rep_fields_props(fields@);
        assert(r@->Object_0 =~= handshake_response_to_value(h@)->Object_0);
        assert(r@ =~= handshake_response_to_value(h@));
    }
    r
}

/// Decodes a handshake response from the wire.
pub fn decode_handshake_response(v: &AppValue) -> (r: Option<HandshakeResponse>)
    ensures
        match r {
            Some(h) => handshake_response_of_value(v@) == Some(h@),
            None => handshake_response_of_value(v@) is None,
        },
{
    let node_info = match value_field(v, "node_info") {
        Some(nv) => match decode_node_info(nv) {
            Some(i) => i,
            None => {
                return None;
            },
        },
        None => {
            return None;
        },
    };
    let success = match get_bool_field(v, "success") {
        Some(b) => b,
        None => {
            return None;
        },
    };
    let error_message = match value_field(v, "error_message") {
        Some(AppValue::Null) => None,
        Some(AppValue::Text(s)) => Some(s.clone()),
        _ => {
            return None;
        },
    };
    let public_addr = match value_field(v, "public_addr") {
        Some(AppValue::Null) => None,
        Some(AppValue::Text(s)) => match parse_addr(s.as_str()) {
            Some(a) => Some(a),
            None => {
                return None;
            },
        },
        _ => {
            return None;
        },
    };
    let r = HandshakeResponse { node_info, success, error_message, public_addr };
    proof {
        assert(handshake_response_of_value(v@) == Some(r@)) by {
            assert(r@ =~= handshake_response_of_value(v@)->Some_0);
        }
    }
    Some(r)
}

/// The four field names of a handshake response are pairwise distinct.
proof fn lemma_handshake_response_field_names(h: HandshakeResponseV)
    ensures
        spec_get_field(handshake_response_to_value(h), "node_info"@) == Some(
            node_info_to_value(h.node_info),
        ),
        spec_get_field(handshake_response_to_value(h), "success"@) == Some(
            SpecValue::Bool(h.success),
        ),
        spec_get_field(handshake_response_to_value(h), "error_message"@) == Some(
            opt_text_value(h.error_message),
        ),
        spec_get_field(handshake_response_to_value(h), "public_addr"@) == Some(
            opt_addr_value(h.public_addr),
        ),
{
    reveal_strlit("node_info");
    reveal_strlit("success");
    reveal_strlit("error_message");
    reveal_strlit("public_addr");
    assert("node_info"@.len() == 9);
    assert("success"@.len() == 7);
    assert("error_message"@.len() == 13);
    assert("public_addr"@.len() == 11);
    reveal_with_fuel(lookup_field, 6);
}

/// Reading a handshake response's wire form back gives it, provided the
/// node identifier text reads back as the identifier.
pub proof fn lemma_handshake_response_round_trip(h: HandshakeResponseV)
    requires
        uuid_of_text(uuid_text(h.node_info.id)) == Some(h.node_info.id),
    ensures
        handshake_response_of_value(handshake_response_to_value(h)) == Some(h),
{
    lemma_handshake_response_field_names(h);
    lemma_node_info_round_trip(h.node_info);
    if h.public_addr is Some {
        lemma_addr_text_round_trip(h.public_addr->0);
    }
    assert(handshake_response_of_value(handshake_response_to_value(h))->Some_0 =~= h);
}

/// The wire form of a whole message.
pub open spec fn message_to_value(m: MessageV) -> SpecValue {
    SpecValue::Object(
        seq![
            ("id"@, SpecValue::Text(uuid_text(m.id))),
            ("message_type"@, SpecValue::Text(tag_text(m.message_type))),
            ("timestamp"@, SpecValue::UInt(m.timestamp)),
            ("payload"@, m.payload),
            ("sender_addr"@, opt_addr_value(m.sender_addr)),
            ("sequence_number"@, opt_u32_value(m.sequence_number)),
            ("requires_ack"@, SpecValue::Bool(m.requires_ack)),
            ("ack_for"@, opt_uuid_value(m.ack_for)),
        ],
    )
}

/// The message a wire value denotes, if it has every field.
pub open spec fn message_of_value(v: SpecValue) -> Option<MessageV> {
    if field_uuid(v, "id"@) is Some && (match field_text(v, "message_type"@) {
        Some(t) => tag_of_text(t) is Some,
        None => false,
    }) && field_uint(v, "timestamp"@) is Some && spec_get_field(v, "payload"@) is Some && (
    match spec_get_field(v, "sender_addr"@) {
        Some(x) => opt_addr_of(x) is Some,
        None => false,
    }) && (match spec_get_field(v, "sequence_number"@) {
        Some(x) => opt_u32_of(x) is Some,
        None => false,
    }) && field_bool(v, "requires_ack"@) is Some && (match spec_get_field(v, "ack_for"@) {
        Some(x) => opt_uuid_of(x) is Some,
        None => false,
    }) {
        Some(
            MessageV {
                id: field_uuid(v, "id"@)->Some_0,
                message_type: tag_of_text(field_text(v, "message_type"@)->Some_0)->Some_0,
                timestamp: field_uint(v, "timestamp"@)->Some_0,
                payload: spec_get_field(v, "payload"@)->Some_0,
                sender_addr: opt_addr_of(spec_get_field(v, "sender_addr"@)->Some_0)->Some_0,
                sequence_number: opt_u32_of(
                    spec_get_field(v, "sequence_number"@)->Some_0,
                )->Some_0,
                requires_ack: field_bool(v, "requires_ack"@)->Some_0,
                ack_for: opt_uuid_of(spec_get_field(v, "ack_for"@)->Some_0)->Some_0,
            },
        )
    } else {
        None
    }
}

/// Encodes a whole message for the wire.
pub fn encode_message(m: &Message) -> (r: AppValue)
    ensures
        r@ == message_to_value(m@),
        uuid_of_text(uuid_text(m@.id)) == Some(m@.id),
        (match m@.ack_for {
            Some(u) => uuid_of_text(uuid_text(u)) == Some(u),
            None => true,
        }),
{
    let mut fields: Vec<(String, AppValue)> = Vec::new();
    fields.push(("id".to_owned(), AppValue::Text(format_uuid(m.id))));
    fields.push(
        ("message_type".to_owned(), AppValue::Text(message_type_tag(&m.message_type).to_owned())),
    );
    fields.push(("timestamp".to_owned(), AppValue::UInt(m.timestamp)));
    fields.push(("payload".to_owned(), m.payload.clone()));
    let addr_v = match &m.sender_addr {
        Some(a) => AppValue::Text(addr_to_string(a)),
        None => AppValue::Null,
    };
    fields.push(("sender_addr".to_owned(), addr_v));
    let seq_v = match m.sequence_number {
        Some(n) => AppValue::UInt(n as u64),
        None => AppValue::Null,
    };
    fields.push(("sequence_number".to_owned(), seq_v));
    fields.push(("requires_ack".to_owned(), AppValue::Bool(m.requires_ack)));
    let ack_v = match m.ack_for {
        Some(u) => AppValue::Text(format_uuid(u)),
        None => AppValue::Null,
    };
    fields.push(("ack_for".to_owned(), ack_v));
    let r = AppValue::Object(fields);
    proof {
        lemma_rep_fields_props(fields@);
        assert(r@->Object_0 =~= message_to_value(m@)->Object_0);
        assert(r@ =~= message_to_value(m@));
    }
    r
}

/// Decodes a whole message from the wire.
pub fn decode_message(v: &AppValue) -> (r: Option<Message>)
    ensures
        match r {
            Some(m) => message_of_value(v@) == Some(m@),
            None => message_of_value(v@) is None,
        },
{
    let id = match get_uuid_field(v, "id") {
        Some(u) => u,
        None => {
            return None;
        },
    };
    let message_type = match get_text_field(v, "message_type") {
        Some(s) => match crate::protocol::message_type_of_tag(s.as_str()) {
            Some(t) => t,
            None => {
                return None;
            },
        },
        None => {
            return None;
        },
    };
    let timestamp = match get_uint_field(v, "timestamp") {
        Some(n) => n,
        None => {
            return None;
        },
    };
    let payload = match value_field(v, "payload") {
        Some(p) => p.clone(),
        None => {
            return None;
        },
    };
    let sender_addr = match value_field(v, "sender_addr") {
        Some(AppValue::Null) => None,
        Some(AppValue::Text(s)) => match parse_addr(s.as_str()) {
            Some(a) => Some(a),
            None => {
                return None;
            },
        },
        _ => {
            return None;
        },
    };
    let sequence_number = match value_field(v, "sequence_number") {
        Some(AppValue::Null) => None,
        Some(AppValue::UInt(n)) => {
            if *n <= u32::MAX as u64 {
                Some(*n as u32)
            } else {
                return None;
            }
        },
        _ => {
            return None;
        },
    };
    let requires_ack = match get_bool_field(v, "requires_ack") {
        Some(b) => b,
        None => {
            return None;
        },
    };
    let ack_for = match value_field(v, "ack_for") {
        Some(AppValue::Null) => None,
        Some(AppValue::Text(s)) => match parse_uuid(s.as_str()) {
            Some(u) => Some(u),
            None => {
                return None;
            },
        },
        _ => {
            return None;
        },
    };
    let r = Message {
        id,
        message_type,
        timestamp,
        payload,
        sender_addr,
        sequence_number,
        requires_ack,
        ack_for,
    };
    proof {
        assert(message_of_value(v@) == Some(r@)) by {
            assert(r@ =~= message_of_value(v@)->Some_0);
        }
    }
    Some(r)
}

/// The eight field names of a message are pairwise distinct.
proof fn lemma_message_field_names(m: MessageV)
    ensures
        spec_get_field(message_to_value(m), "id"@) == Some(SpecValue::Text(uuid_text(m.id))),
        spec_get_field(message_to_value(m), "message_type"@) == Some(
            SpecValue::Text(tag_text(m.message_type)),
        ),
        spec_get_field(message_to_value(m), "timestamp"@) == Some(SpecValue::UInt(m.timestamp)),
        spec_get_field(message_to_value(m), "payload"@) == Some(m.payload),
        spec_get_field(message_to_value(m), "sender_addr"@) == Some(opt_addr_value(m.sender_addr)),
        spec_get_field(message_to_value(m), "sequence_number"@) == Some(
            opt_u32_value(m.sequence_number),
        ),
        spec_get_field(message_to_value(m), "requires_ack"@) == Some(
            SpecValue::Bool(m.requires_ack),
        ),
        spec_get_field(message_to_value(m), "ack_for"@) == Some(opt_uuid_value(m.ack_for)),
{
    reveal_strlit("id");
    reveal_strlit("message_type");
    reveal_strlit("timestamp");
    reveal_strlit("payload");
    reveal_strlit("sender_addr");
    reveal_strlit("sequence_number");
    reveal_strlit("requires_ack");
    reveal_strlit("ack_for");
    assert("id"@.len() == 2);
    assert("message_type"@.len() == 12);
    assert("timestamp"@.len() == 9);
    assert("payload"@.len() == 7);
    assert("sender_addr"@.len() == 11);
    assert("sequence_number"@.len() == 15);
    assert("requires_ack"@.len() == 12);
    assert("ack_for"@.len() == 7);
    assert("requires_ack"@ != "message_type"@) by {
        assert("requires_ack"@[0] == 'r' && "message_type"@[0] == 'm');
    }
    assert("ack_for"@ != "payload"@) by {
        assert("ack_for"@[0] == 'a' && "payload"@[0] == 'p');
    }
    reveal_with_fuel(lookup_field, 10);
}

/// Reading a message's wire form back gives the message, provided its
/// identifier texts read back as the identifiers.
pub proof fn lemma_message_round_trip(m: MessageV)
    requires
        uuid_of_text(uuid_text(m.id)) == Some(m.id),
        (match m.ack_for {
            Some(u) => uuid_of_text(uuid_text(u)) == Some(u),
            None => true,
        }),
    ensures
        message_of_value(message_to_value(m)) == Some(m),
{
    lemma_message_field_names(m);
    crate::protocol::lemma_tag_round_trip(m.message_type);
    if m.sender_addr is Some {
        lemma_addr_text_round_trip(m.sender_addr->0);
    }
    assert(message_of_value(message_to_value(m))->Some_0 =~= m);
}

/// Reading an entry list's wire form back gives the entries, provided
/// each identifier text reads back as its identifier.
pub proof fn lemma_peer_info_list_round_trip(ps: Seq<PeerInfoV>)
    requires
        forall|j: int|
            0 <= j < ps.len() ==> uuid_of_text(uuid_text(#[trigger] ps[j].id)) == Some(ps[j].id),
    ensures
        peer_infos_of(peer_info_list_to_value(ps)->List_0) == Some(ps),
    decreases ps.len(),
{
    let items = peer_info_list_to_value(ps)->List_0;
    if ps.len() == 0 {
        assert(items =~= Seq::<SpecValue>::empty());
        assert(ps =~= Seq::<PeerInfoV>::empty());
    } else {
        lemma_peer_info_list_round_trip(ps.drop_last());
        assert(items.drop_last() =~= peer_info_list_to_value(ps.drop_last())->List_0);
        assert(items.last() == peer_info_to_value(ps.last()));
        lemma_peer_info_round_trip(ps.last());
        assert(ps.drop_last().push(ps.last()) =~= ps);
    }
}

/// The payload of an error message.
pub open spec fn error_payload(text: Seq<char>) -> SpecValue {
    SpecValue::Object(seq![("error"@, SpecValue::Text(text))])
}

/// The payload of a disconnect message.
pub open spec fn disconnect_payload(reason: Seq<char>) -> SpecValue {
    SpecValue::Object(seq![("reason"@, SpecValue::Text(reason))])
}

/// The payload of a peer-to-peer connect request.
pub open spec fn p2p_connect_payload(peer_id: u128) -> SpecValue {
    SpecValue::Object(seq![("peer_id"@, SpecValue::Text(uuid_text(peer_id)))])
}

/// The payload of a brokered peer-to-peer connect instruction: the other
/// side's identifier and observed endpoint.
pub open spec fn p2p_connect_with_addr_payload(peer_id: u128, peer_addr: Addr) -> SpecValue {
    SpecValue::Object(
        seq![
            ("peer_id"@, SpecValue::Text(uuid_text(peer_id))),
            ("peer_addr"@, SpecValue::Text(addr_text(peer_addr))),
        ],
    )
}

/// The payload of a brokered-connection request with optional traversal
/// hints: the target identifier always, then each hint that was given.
pub open spec fn p2p_prediction_payload(
    peer_id: u128,
    nat_type: Option<Seq<char>>,
    ports: Option<Seq<u16>>,
    addr: Option<Addr>,
) -> SpecValue {
    SpecValue::Object(
        seq![("peer_id"@, SpecValue::Text(uuid_text(peer_id)))] + (match nat_type {
            Some(t) => seq![("nat_type"@, SpecValue::Text(t))],
            None => Seq::<(Seq<char>, SpecValue)>::empty(),
        }) + (match ports {
            Some(ps) => seq![
                (
                    "predicted_ports"@,
                    SpecValue::List(ps.map_values(|p: u16| SpecValue::UInt(p as u64))),
                ),
            ],
            None => Seq::<(Seq<char>, SpecValue)>::empty(),
        }) + (match addr {
            Some(a) => seq![("public_addr"@, SpecValue::Text(addr_text(a)))],
            None => Seq::<(Seq<char>, SpecValue)>::empty(),
        }),
    )
}

/// The payload echoed back for an unrecognized data message.
pub open spec fn echo_payload(p: SpecValue, now: u64) -> SpecValue {
    SpecValue::Object(seq![("echo"@, p), ("timestamp"@, SpecValue::UInt(now))])
}

/// The wire form of a node-list response payload.
pub open spec fn node_info_list_payload(nodes: Seq<NodeInfoV>) -> SpecValue {
    SpecValue::Object(
        seq![
            ("nodes"@, SpecValue::List(nodes.map_values(|n: NodeInfoV| node_info_to_value(n)))),
        ],
    )
}

/// Bytes as a list of numbers.
pub open spec fn byte_list(data: Seq<u8>) -> Seq<SpecValue> {
    data.map_values(|b: u8| SpecValue::UInt(b as u64))
}

/// Bytes as a list of numbers.
fn bytes_to_values(data: &Vec<u8>) -> (r: Vec<AppValue>)
    ensures
        rep_list(r@) == byte_list(data@),
{
    let mut out: Vec<AppValue> = Vec::new();
    let n = data.len();
    let mut i: usize = 0;
    while i < n
        invariant
            n == data@.len(),
            0 <= i <= n,
            out@.len() == i,
            forall|j: int| 0 <= j < i ==> (#[trigger] out@[j])@ == SpecValue::UInt(data@[j] as u64),
        decreases n - i,
    {
        out.push(AppValue::UInt(data[i] as u64));
        i = i + 1;
    }
    proof {
        lemma_rep_list_props(out@);
        assert(rep_list(out@) =~= byte_list(data@));
    }
    out
}

impl Message {
    /// An error report carrying the given text.
    pub fn error(error_message: String) -> (r: Message)
        ensures
            crate::protocol::is_plain_message(
                r@,
                MessageType::Error,
                error_payload(error_message@),
            ),
    {
        let mut fields: Vec<(String, AppValue)> = Vec::new();
        fields.push(("error".to_owned(), AppValue::Text(error_message)));
        let payload = AppValue::Object(fields);
        proof {
            lemma_rep_fields_props(fields@);
            assert(payload@->Object_0 =~= error_payload(error_message@)->Object_0);
            assert(payload@ =~= error_payload(error_message@));
        }
        Message::new(MessageType::Error, payload)
    }

    /// A disconnect notice carrying the given reason.
    pub fn disconnect(reason: String) -> (r: Message)
        ensures
            crate::protocol::is_plain_message(
                r@,
                MessageType::Disconnect,
                disconnect_payload(reason@),
            ),
    {
        let mut fields: Vec<(String, AppValue)> = Vec::new();
        fields.push(("reason".to_owned(), AppValue::Text(reason)));
        let payload = AppValue::Object(fields);
        proof {
            lemma_rep_fields_props(fields@);
            assert(payload@->Object_0 =~= disconnect_payload(reason@)->Object_0);
            assert(payload@ =~= disconnect_payload(reason@));
        }
        Message::new(MessageType::Disconnect, payload)
    }

    /// A discovery response carrying a list of peers.
    pub fn discovery_response(peers: Vec<PeerInfo>) -> (r: Message)
        ensures
            crate::protocol::is_plain_message(
                r@,
                MessageType::DiscoveryResponse,
                peer_info_list_to_value(peers.deep_view()),
            ),
    {
        let payload = encode_peer_info_list(&peers);
        Message::new(MessageType::DiscoveryResponse, payload)
    }

    /// A handshake request announcing the given node.
    pub fn handshake_request(node_info: NodeInfo) -> (r: Message)
        ensures
            crate::protocol::is_plain_message(
                r@,
                MessageType::HandshakeRequest,
                node_info_to_value(node_info@),
            ),
            uuid_of_text(uuid_text(node_info@.id)) == Some(node_info@.id),
    {
        let payload = encode_node_info(&node_info);
        Message::new(MessageType::HandshakeRequest, payload)
    }

    /// A handshake response without an observed public endpoint.
    pub fn handshake_response(node_info: NodeInfo, success: bool) -> (r: Message)
        ensures
            crate::protocol::is_plain_message(
                r@,
                MessageType::HandshakeResponse,
                handshake_response_to_value(
                    HandshakeResponseV {
                        node_info: node_info@,
                        success: success,
                        error_message: None,
                        public_addr: None,
                    },
                ),
            ),
    {
        let response = HandshakeResponse { node_info, success, error_message: None, public_addr: None };
        let payload = encode_handshake_response(&response);
        Message::new(MessageType::HandshakeResponse, payload)
    }

    /// A handshake response telling the client its observed endpoint.
    pub fn handshake_response_with_public_addr(
        node_info: NodeInfo,
        success: bool,
        public_addr: Addr,
    ) -> (r: Message)
        ensures
            crate::protocol::is_plain_message(
                r@,
                MessageType::HandshakeResponse,
                handshake_response_to_value(
                    HandshakeResponseV {
                        node_info: node_info@,
                        success: success,
                        error_message: None,
                        public_addr: Some(public_addr),
                    },
                ),
            ),
    {
        let response = HandshakeResponse {
            node_info,
            success,
            error_message: None,
            public_addr: Some(public_addr),
        };
        let payload = encode_handshake_response(&response);
        Message::new(MessageType::HandshakeResponse, payload)
    }

    /// A node-list response describing every known node.
    pub fn list_nodes_response(nodes: Vec<NodeInfo>) -> (r: Message)
        ensures
            crate::protocol::is_plain_message(
                r@,
                MessageType::ListNodesResponse,
                node_info_list_payload(nodes.deep_view()),
            ),
    {
        let mut out: Vec<AppValue> = Vec::new();
        let n = nodes.len();
        let mut i: usize = 0;
        while i < n
            invariant
                n == nodes@.len(),
                0 <= i <= n,
                out@.len() == i,
                forall|j: int| 0 <= j < i ==> (#[trigger] out@[j])@ == node_info_to_value(nodes@[j]@),
            decreases n - i,
        {
            let item = encode_node_info(&nodes[i]);
            out.push(item);
            i = i + 1;
        }
        let mut fields: Vec<(String, AppValue)> = Vec::new();
        fields.push(("nodes".to_owned(), AppValue::List(out)));
        let payload = AppValue::Object(fields);
        proof {
            lemma_rep_fields_props(fields@);
            lemma_rep_list_props(fields@[0].1->List_0@);
            assert(rep_list(fields@[0].1->List_0@) =~= nodes.deep_view().map_values(
                |x: NodeInfoV| node_info_to_value(x),
            ));
            assert(payload@->Object_0 =~= node_info_list_payload(nodes.deep_view())->Object_0);
            assert(payload@ =~= node_info_list_payload(nodes.deep_view()));
        }
        Message::new(MessageType::ListNodesResponse, payload)
    }

    /// A request for a brokered direct connection to a peer.
    pub fn initiate_p2p(peer_id: u128) -> (r: Message)
        ensures
            crate::protocol::is_plain_message(
                r@,
                MessageType::P2PConnect,
                p2p_connect_payload(peer_id),
            ),
    {
        let mut fields: Vec<(String, AppValue)> = Vec::new();
        fields.push(("peer_id".to_owned(), AppValue::Text(format_uuid(peer_id))));
        let payload = AppValue::Object(fields);
        proof {
            lemma_rep_fields_props(fields@);
            assert(payload@->Object_0 =~= p2p_connect_payload(peer_id)->Object_0);
            assert(payload@ =~= p2p_connect_payload(peer_id));
        }
        Message::new(MessageType::P2PConnect, payload)
    }

    /// A request for a brokered direct connection carrying optional
    /// traversal hints: the requester's address-translation kind, its
    /// predicted ports, and its public endpoint.
    pub fn initiate_p2p_with_prediction(
        peer_id: u128,
        nat_type: Option<String>,
        predicted_ports: Option<Vec<u16>>,
        public_addr: Option<Addr>,
    ) -> (r: Message)
        ensures
            crate::protocol::is_plain_message(
                r@,
                MessageType::P2PConnect,
                p2p_prediction_payload(
                    peer_id,
                    (match nat_type {
                        Some(ref t) => Some(t@),
                        None => None,
                    }),
                    (match predicted_ports {
                        Some(ref ps) => Some(ps@),
                        None => None,
                    }),
                    public_addr,
                ),
            ),
    {
        let ghost nat_v: Option<Seq<char>> = match nat_type {
            Some(ref t) => Some(t@),
            None => None,
        };
        let ghost ports_v: Option<Seq<u16>> = match predicted_ports {
            Some(ref ps) => Some(ps@),
            None => None,
        };
        let mut fields: Vec<(String, AppValue)> = Vec::new();
        fields.push(("peer_id".to_owned(), AppValue::Text(format_uuid(peer_id))));
        match nat_type {
            Some(t) => {
                fields.push(("nat_type".to_owned(), AppValue::Text(t)));
            },
            None => {},
        }
        match predicted_ports {
            Some(ps) => {
                let mut items: Vec<AppValue> = Vec::new();
                let n = ps.len();
                let mut i: usize = 0;
                while i < n
                    invariant
                        n == ps@.len(),
                        0 <= i <= n,
                        items@.len() == i,
                        forall|j: int|
                            0 <= j < i ==> (#[trigger] items@[j])@ == SpecValue::UInt(
                                ps@[j] as u64,
                            ),
                    decreases n - i,
                {
                    items.push(AppValue::UInt(ps[i] as u64));
                    i = i + 1;
                }
                proof {
                    lemma_rep_list_props(items@);
                    assert(rep_list(items@) =~= ps@.map_values(
                        |p: u16| SpecValue::UInt(p as u64),
                    ));
                }
                fields.push(("predicted_ports".to_owned(), AppValue::List(items)));
            },
            None => {},
        }
        match public_addr {
            Some(a) => {
                fields.push(("public_addr".to_owned(), AppValue::Text(addr_to_string(&a))));
            },
            None => {},
        }
        let payload = AppValue::Object(fields);
        proof {
            lemma_rep_fields_props(fields@);
            assert(payload@->Object_0 =~= p2p_prediction_payload(
                peer_id,
                nat_v,
                ports_v,
                public_addr,
            )->Object_0);
            assert(payload@ =~= p2p_prediction_payload(peer_id, nat_v, ports_v, public_addr));
        }
        Message::new(MessageType::P2PConnect, payload)
    }

    /// A relay request carrying raw bytes for another peer.
    pub fn relay_request(target_peer_id: u128, data: Vec<u8>) -> (r: Message)
        ensures
            (r@.message_type == MessageType::RelayRequest && r@.payload == SpecValue::Object(
                seq![
                    ("target_peer_id"@, SpecValue::Text(uuid_text(target_peer_id))),
                    ("data"@, SpecValue::List(byte_list(data@))),
                ],
            )),
    {
        let mut fields: Vec<(String, AppValue)> = Vec::new();
        fields.push(("target_peer_id".to_owned(), AppValue::Text(format_uuid(target_peer_id))));
        fields.push(("data".to_owned(), AppValue::List(bytes_to_values(&data))));
        let payload = AppValue::Object(fields);
        proof {
            lemma_rep_fields_props(fields@);
            assert(payload@->Object_0 =~= SpecValue::Object(
                seq![
                    ("target_peer_id"@, SpecValue::Text(uuid_text(target_peer_id))),
                    ("data"@, SpecValue::List(byte_list(data@))),
                ],
            )->Object_0);
        }
        Message::new(MessageType::RelayRequest, payload)
    }

    /// The answer to a relay request.
    pub fn relay_response(success: bool, error_message: Option<String>) -> (r: Message)
        ensures
            r@.message_type == MessageType::RelayResponse,
            (match error_message {
                Some(e) => r@.payload == SpecValue::Object(
                    seq![
                        ("success"@, SpecValue::Bool(success)),
                        ("error_message"@, SpecValue::Text(e@)),
                    ],
                ),
                None => r@.payload == SpecValue::Object(
                    seq![("success"@, SpecValue::Bool(success))],
                ),
            }),
    {
        let mut fields: Vec<(String, AppValue)> = Vec::new();
        fields.push(("success".to_owned(), AppValue::Bool(success)));
        match error_message {
            Some(e) => {
                fields.push(("error_message".to_owned(), AppValue::Text(e)));
                proof {
                    lemma_rep_fields_props(fields@);
                    assert(rep_fields(fields@) =~= SpecValue::Object(
                        seq![
                            ("success"@, SpecValue::Bool(success)),
                            ("error_message"@, SpecValue::Text(e@)),
                        ],
                    )->Object_0);
                }
            },
            None => {
                proof {
                    lemma_rep_fields_props(fields@);
                    assert(rep_fields(fields@) =~= SpecValue::Object(
                        seq![("success"@, SpecValue::Bool(success))],
                    )->Object_0);
                }
            },
        }
        Message::new(MessageType::RelayResponse, AppValue::Object(fields))
    }

    /// Raw bytes relayed onward from another peer.
    pub fn relay_data(from_peer_id: u128, data: Vec<u8>) -> (r: Message)
        ensures
            (r@.message_type == MessageType::RelayData && r@.payload == SpecValue::Object(
                seq![
                    ("from_peer_id"@, SpecValue::Text(uuid_text(from_peer_id))),
                    ("data"@, SpecValue::List(byte_list(data@))),
                ],
            )),
    {
        let mut fields: Vec<(String, AppValue)> = Vec::new();
        fields.push(("from_peer_id".to_owned(), AppValue::Text(format_uuid(from_peer_id))));
        fields.push(("data".to_owned(), AppValue::List(bytes_to_values(&data))));
        let payload = AppValue::Object(fields);
        proof {
            lemma_rep_fields_props(fields@);
            assert(payload@->Object_0 =~= SpecValue::Object(
                seq![
                    ("from_peer_id"@, SpecValue::Text(uuid_text(from_peer_id))),
                    ("data"@, SpecValue::List(byte_list(data@))),
                ],
            )->Object_0);
        }
        Message::new(MessageType::RelayData, payload)
    }
}

/// What validating a handshake request yields: the announced node, or
/// the first rule it breaks.
pub open spec fn spec_validate_handshake_request(m: MessageV) -> Result<
    NodeInfoV,
    HandshakeError,
> {
    if m.message_type != MessageType::HandshakeRequest {
        Err(HandshakeError::NotHandshakeRequest)
    } else {
        match node_info_of_value(m.payload) {
            None => Err(HandshakeError::InvalidPayload),
            Some(i) => {
                if i.name.len() == 0 {
                    Err(HandshakeError::EmptyName)
                } else if i.version.len() == 0 {
                    Err(HandshakeError::EmptyVersion)
                } else {
                    Ok(i)
                }
            },
        }
    }
}

/// What validating a handshake response yields.
pub open spec fn spec_validate_handshake_response(m: MessageV) -> Result<
    HandshakeResponseV,
    HandshakeError,
> {
    if m.message_type != MessageType::HandshakeResponse {
        Err(HandshakeError::NotHandshakeResponse)
    } else {
        match handshake_response_of_value(m.payload) {
            None => Err(HandshakeError::InvalidResponsePayload),
            Some(h) => Ok(h),
        }
    }
}

impl HandshakeProtocol {
    /// Checks that a message is a handshake request announcing a node
    /// with a non-empty name and version.
    pub fn validate_handshake_request(message: &Message) -> (r: Result<NodeInfo, HandshakeError>)
        ensures
            (match r {
                Ok(i) => spec_validate_handshake_request(message@) == Ok::<
                    NodeInfoV,
                    HandshakeError,
                >(i@),
                Err(e) => spec_validate_handshake_request(message@) == Err::<
                    NodeInfoV,
                    HandshakeError,
                >(e),
            }),
    {
        if !matches!(message.message_type, MessageType::HandshakeRequest) {
            return Err(HandshakeError::NotHandshakeRequest);
        }
        let node_info = match decode_node_info(&message.payload) {
            Some(i) => i,
            None => {
                return Err(HandshakeError::InvalidPayload);
            },
        };
        if node_info.name.as_str().is_empty() {
            return Err(HandshakeError::EmptyName);
        }
        if node_info.version.as_str().is_empty() {
            return Err(HandshakeError::EmptyVersion);
        }
        Ok(node_info)
    }

    /// Checks that a message is a handshake response with a readable
    /// payload.
    pub fn validate_handshake_response(message: &Message) -> (r: Result<
        HandshakeResponse,
        HandshakeError,
    >)
        ensures
            (match r {
                Ok(h) => spec_validate_handshake_response(message@) == Ok::<
                    HandshakeResponseV,
                    HandshakeError,
                >(h@),
                Err(e) => spec_validate_handshake_response(message@) == Err::<
                    HandshakeResponseV,
                    HandshakeError,
                >(e),
            }),
    {
        if !matches!(message.message_type, MessageType::HandshakeResponse) {
            return Err(HandshakeError::NotHandshakeResponse);
        }
        match decode_handshake_response(&message.payload) {
            Some(h) => Ok(h),
            None => Err(HandshakeError::InvalidResponsePayload),
        }
    }
}

} // verus!
