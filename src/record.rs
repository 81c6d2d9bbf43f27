//! The decoded Kafka record that queries are evaluated against.
use vstd::prelude::*;
use crate::lexer::{digit, is_digit, number_value, value_of};
use crate::text::{chars_of, same_chars};

verus! {

/// What a JSON node is, as far as a query reads it.
#[derive(Debug, PartialEq, Eq)]
pub enum JsonKind {
    /// A number, a boolean or null.
    Scalar,
    /// A string, unescaped.
    String(String),
    Array(Vec<JsonValue>),
    /// The members, in the order of the document.
    Object(Vec<(String, JsonValue)>),
}

/// A node of a decoded JSON document, with the compact JSON text of the node.
#[derive(Debug, PartialEq, Eq)]
pub struct JsonValue {
    pub text: String,
    pub kind: JsonKind,
}

/// A decoded key or value.
#[derive(Debug, PartialEq, Eq)]
pub enum DataType {
    Json(JsonValue),
    String(String),
}

#[derive(Debug, Clone, Copy, PartialEq, Eq, Structural)]
pub struct SchemaId(pub u32);

#[derive(Debug, Clone, Copy, PartialEq, Eq, Structural)]
pub enum SchemaType {
    Avro,
    Json,
    Protobuf,
}

/// The schema that a key or a value was written with.
#[derive(Debug, Clone, Copy, PartialEq, Eq, Structural)]
pub struct Schema {
    pub id: SchemaId,
    pub schema_type: Option<SchemaType>,
}

impl Schema {
    pub fn new(id: SchemaId, schema_type: Option<SchemaType>) -> (r: Schema)
        ensures
            r.id == id,
            r.schema_type == schema_type,
    {
        Schema { id, schema_type }
    }
}

/// One Kafka record, already decoded. Headers keep the order of the record.
#[derive(Debug, PartialEq, Eq)]
pub struct KafkaRecord {
    pub topic: String,
    /// Milliseconds since the epoch, where the record has a timestamp.
    pub timestamp: Option<i64>,
    pub partition: i32,
    pub offset: i64,
    pub headers: Vec<(String, String)>,
    pub key_schema: Option<Schema>,
    pub value_schema: Option<Schema>,
    /// The size of the record in bytes.
    pub size: u64,
    pub key_as_string: String,
    pub key: DataType,
    pub value_as_string: String,
    pub value: DataType,
}

impl KafkaRecord {
    /// No two headers have the same name, as in the map that the record
    /// source delivers.
    pub open spec fn wf(&self) -> bool {
        forall|i: int, j: int|
            0 <= i < j < self.headers@.len() ==> #[trigger] self.headers@[i].0@ != #[trigger] self.headers@[j].0@
    }

    /// Whether no two headers have the same name.
    pub fn headers_unique(&self) -> (r: bool)
        ensures
            r == self.wf(),
    {
        let n = self.headers.len();
        let mut i: usize = 0;
        while i < n
            invariant
                n == self.headers@.len(),
                0 <= i <= n,
                forall|a: int, b: int| 0 <= a < b < n && a < i ==> #[trigger] self.headers@[a].0@ != #[trigger] self.headers@[b].0@,
            decreases n - i,
        {
            let x = chars_of(self.headers[i].0.as_str());
            let mut j: usize = i + 1;
            while j < n
                invariant
                    n == self.headers@.len(),
                    0 <= i < n,
                    i + 1 <= j <= n,
                    x@ == self.headers@[i as int].0@,
                    forall|b: int| i < b < j ==> self.headers@[i as int].0@ != #[trigger] self.headers@[b].0@,
                decreases n - j,
            {
                let y = chars_of(self.headers[j].0.as_str());
                if same_chars(&x, &y) {
                    return false;
                }
                j = j + 1;
            }
            i = i + 1;
        }
        true
    }

    /// Whether the key or the value was written with a schema.
    pub fn has_schemas(&self) -> (r: bool)
        ensures
            r == (self.key_schema is Some || self.value_schema is Some),
    {
        self.key_schema.is_some() || self.value_schema.is_some()
    }
}

/// What a comparison reads from a JSON node: a string's text, or else the node's JSON text.
pub open spec fn json_text(v: JsonValue) -> Seq<char> {
    match v.kind {
        JsonKind::String(s) => s@,
        _ => v.text@,
    }
}

/// The index of the first member from `k` on whose key is `seg`.
pub open spec fn find_member(ms: Seq<(String, JsonValue)>, seg: Seq<char>, k: int) -> Option<int>
    decreases ms.len() - k,
{
    if k < 0 || k >= ms.len() {
        None
    } else if ms[k].0@ == seg {
        Some(k)
    } else {
        find_member(ms, seg, k + 1)
    }
}

/// The child that one path segment names: a member of an object by its key, or
/// an element of an array by its decimal index.
pub open spec fn json_child(v: JsonValue, seg: Seq<char>) -> Option<JsonValue> {
    match v.kind {
        JsonKind::Object(ms) => match find_member(ms@, seg, 0) {
            Some(k) => Some(ms@[k].1),
            None => None,
        },
        JsonKind::Array(items) => if seg.len() > 0 && (forall|i: int| 0 <= i < seg.len() ==> #[trigger] is_digit(seg[i]))
            && number_value(seg) < items@.len() {
            Some(items@[number_value(seg) as int])
        } else {
            None
        },
        _ => None,
    }
}

/// The end of the path segment that starts at `i`.
pub open spec fn segment_end(path: Seq<char>, i: int) -> int
    decreases path.len() - i,
{
    if 0 <= i < path.len() && path[i] != '.' {
        segment_end(path, i + 1)
    } else {
        i
    }
}

/// The node that the dotted path, from index `i` on, reaches from `v`.
pub open spec fn json_at(v: JsonValue, path: Seq<char>, i: int) -> Option<JsonValue>
    decreases path.len() - i,
{
    let j = segment_end(path, i);
    match json_child(v, path.subrange(i, j)) {
        Some(c) => if i <= j && j + 1 <= path.len() {
            json_at(c, path, j + 1)
        } else {
            Some(c)
        },
        None => None,
    }
}

fn member_index(ms: &Vec<(String, JsonValue)>, seg: &Vec<char>) -> (r: Option<usize>)
    ensures
        match r {
            Some(k) => find_member(ms@, seg@, 0) == Some(k as int) && k < ms@.len(),
            None => find_member(ms@, seg@, 0) is None,
        },
{
    let mut k: usize = 0;
    while k < ms.len()
        invariant
            0 <= k <= ms@.len(),
            find_member(ms@, seg@, 0) == find_member(ms@, seg@, k as int),
        decreases ms.len() - k,
    {
        let key = chars_of(ms[k].0.as_str());
        if same_chars(&key, seg) {
            return Some(k);
        }
        k = k + 1;
    }
    None
}

fn json_child_exec<'a>(v: &'a JsonValue, seg: &Vec<char>) -> (r: Option<&'a JsonValue>)
    ensures
        match r {
            Some(c) => json_child(*v, seg@) == Some(*c),
            None => json_child(*v, seg@) is None,
        },
{
    match &v.kind {
        JsonKind::Object(ms) => {
            assert(v.kind == JsonKind::Object(*ms));
            match member_index(ms, seg) {
                Some(k) => {
                    assert(json_child(*v, seg@) == Some(ms@[k as int].1));
                    Some(&ms[k].1)
                },
                None => {
                    assert(json_child(*v, seg@) is None);
                    None
                },
            }
        },
        JsonKind::Array(items) => {
            if seg.len() == 0 {
                return None;
            }
            assert(v.kind == JsonKind::Array(*items));
            let mut i: usize = 0;
            while i < seg.len()
                invariant
                    v.kind == JsonKind::Array(*items),
                    0 <= i <= seg@.len(),
                    forall|k: int| 0 <= k < i ==> #[trigger] is_digit(seg@[k]),
                decreases seg.len() - i,
            {
                if !digit(seg[i]) {
                    assert(!is_digit(seg@[i as int]));
                    return None;
                }
                i = i + 1;
            }
            assert(seg@.subrange(0, seg@.len() as int) == seg@);
            let len = items.len();
            assert(len as nat <= u64::MAX);
            match value_of(seg, 0, seg.len()) {
                Some(n) => if n < items.len() as u64 {
                    assert(number_value(seg@) == n);
                    assert(json_child(*v, seg@) == Some(items@[n as int]));
                    Some(&items[n as usize])
                } else {
                    None
                },
                None => None,
            }
        },
        JsonKind::Scalar => None,
        JsonKind::String(_) => None,
    }
}

/// The node that a dotted path reaches inside a JSON value.
pub fn json_lookup<'a>(v: &'a JsonValue, path: &Vec<char>) -> (r: Option<&'a JsonValue>)
    ensures
        match r {
            Some(c) => json_at(*v, path@, 0) == Some(*c),
            None => json_at(*v, path@, 0) is None,
        },
{
    let mut cur: &JsonValue = v;
    let mut i: usize = 0;
    loop
        invariant
            0 <= i <= path@.len(),
            json_at(*v, path@, 0) == json_at(*cur, path@, i as int),
        decreases path@.len() - i,
    {
        let mut j = i;
        while j < path.len() && path[j] != '.'
            invariant
                i <= j <= path@.len(),
                segment_end(path@, j as int) == segment_end(path@, i as int),
            decreases path@.len() - j,
        {
            j = j + 1;
        }
        let mut seg: Vec<char> = Vec::new();
        let mut k = i;
        while k < j
            invariant
                i <= k <= j <= path@.len(),
                seg@ == path@.subrange(i as int, k as int),
            decreases j - k,
        {
            seg.push(path[k]);
            k = k + 1;
            assert(seg@ == path@.subrange(i as int, k as int));
        }
        match json_child_exec(cur, &seg) {
            Some(c) => {
                if j < path.len() {
                    cur = c;
                    i = j + 1;
                } else {
                    return Some(c);
                }
            },
            None => return None,
        }
    }
}

} // verus!
