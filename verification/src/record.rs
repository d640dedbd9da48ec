use vstd::prelude::*;
use vstd::utf8::encode_utf8;

verus! {

/// The typed values a record may hold. The tag is preserved exactly through
/// encode/decode round trips: no numeric widening or narrowing across types.
#[derive(Debug, PartialEq, Clone)]
pub enum Types {
    String(String),
    Bool(bool),
    I16(i16),
    I32(i32),
    I64(i64),
    U16(u16),
    U32(u32),
    U64(u64),
}

/// The mathematical shape of one typed value.
#[verifier::ext_equal]
pub enum TypeView {
    String(Seq<char>),
    Bool(bool),
    I16(i16),
    I32(i32),
    I64(i64),
    U16(u16),
    U32(u32),
    U64(u64),
}

impl View for Types {
    type V = TypeView;

    open spec fn view(&self) -> TypeView {
        match self {
            Types::String(s) => TypeView::String(s@),
            Types::Bool(b) => TypeView::Bool(*b),
            Types::I16(x) => TypeView::I16(*x),
            Types::I32(x) => TypeView::I32(*x),
            Types::I64(x) => TypeView::I64(*x),
            Types::U16(x) => TypeView::U16(*x),
            Types::U32(x) => TypeView::U32(*x),
            Types::U64(x) => TypeView::U64(*x),
        }
    }
}

/// A named, ordered collection of typed values. The order of `values` is
/// significant and preserved verbatim.
#[derive(Debug, PartialEq, Clone)]
pub struct Record {
    pub name: String,
    pub values: Vec<Types>,
}

/// The mathematical shape of a record.
#[verifier::ext_equal]
pub struct RecordView {
    pub name: Seq<char>,
    pub values: Seq<TypeView>,
}

impl View for Record {
    type V = RecordView;

    open spec fn view(&self) -> RecordView {
        RecordView { name: self.name@, values: self.values@.map_values(|t: Types| t@) }
    }
}

/// A stored entry: the pairing of a key with the record stored under it.
#[derive(Debug, PartialEq, Clone)]
pub struct KVRecord {
    pub key: String,
    pub record: Record,
}

/// The mathematical shape of a stored entry.
#[verifier::ext_equal]
pub struct KVRecordView {
    pub key: Seq<char>,
    pub record: RecordView,
}

impl View for KVRecord {
    type V = KVRecordView;

    open spec fn view(&self) -> KVRecordView {
        KVRecordView { key: self.key@, record: self.record@ }
    }
}

/// An optional conjunctive glob filter over the key and the record's name,
/// applied during enumeration only. An absent field means no constraint.
#[derive(Debug, Clone)]
pub struct Filter {
    pub key: Option<String>,
    pub name: Option<String>,
}

/// The mathematical shape of a filter.
#[verifier::ext_equal]
pub struct FilterView {
    pub key: Option<Seq<char>>,
    pub name: Option<Seq<char>>,
}

impl View for Filter {
    type V = FilterView;

    open spec fn view(&self) -> FilterView {
        FilterView {
            key: match self.key {
                Some(ref p) => Some(p@),
                None => None,
            },
            name: match self.name {
                Some(ref p) => Some(p@),
                None => None,
            },
        }
    }
}

/// A value is representable when the byte lengths its encoding writes fit in
/// the length prefixes.
pub open spec fn type_wf(t: TypeView) -> bool {
    match t {
        TypeView::String(s) => encode_utf8(s).len() <= u64::MAX,
        _ => true,
    }
}

/// A record is representable when its name, its value count and each of its
/// values fit the encoding's length prefixes. Every record built from
/// in-memory strings and vectors satisfies this.
pub open spec fn record_wf(r: RecordView) -> bool {
    &&& encode_utf8(r.name).len() <= u64::MAX
    &&& r.values.len() <= u64::MAX
    &&& forall|i: int| 0 <= i < r.values.len() ==> type_wf(#[trigger] r.values[i])
}

} // verus!
