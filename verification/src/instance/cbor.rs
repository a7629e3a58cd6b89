//! Documents of the binary format in which instance data is kept: trees of
//! integers, texts, truth values, arrays and maps, and their encoding as
//! bytes.

use vstd::prelude::*;

verus! {

/// `cbor4ii::core::Value`, the document type of the decoder and the encoder.
/// Values of it are only handed on.
#[verifier::external_type_specification]
#[verifier::external_body]
pub struct ExValue(cbor4ii::core::Value);

/// The document type of the decoder and the encoder, by a short name.
pub type RawValue = cbor4ii::core::Value;

/// The document that the first item of `bytes` decodes to, where `bytes`
/// begins with a well-formed item.
pub uninterp spec fn cbor_document(bytes: Seq<u8>) -> Option<Cbor>;

/// The bytes that encode `document`.
pub uninterp spec fn cbor_bytes(document: Cbor) -> Seq<u8>;

/// A document, as it is decoded from bytes or built for encoding.
#[derive(Debug, PartialEq, Eq)]
pub enum CborValue {
    /// A whole number.
    Integer(i128),
    /// A text.
    Text(String),
    /// A truth value.
    Bool(bool),
    /// A sequence of documents.
    Array(Vec<CborValue>),
    /// Keys with their values, in the order in which they are written.
    Table(Vec<(CborValue, CborValue)>),
    /// Anything else that the format can hold.
    Other,
}

/// What a [`CborValue`] says.
pub enum Cbor {
    Integer(int),
    Text(Seq<char>),
    Bool(bool),
    Array(Seq<Cbor>),
    Table(Seq<(Cbor, Cbor)>),
    Other,
}

impl CborValue {
    /// What the document says.
    pub open spec fn model(&self) -> Cbor
        decreases self,
    {
        match self {
            CborValue::Integer(i) => Cbor::Integer(*i as int),
            CborValue::Text(s) => Cbor::Text(s@),
            CborValue::Bool(b) => Cbor::Bool(*b),
            CborValue::Array(items) => Cbor::Array(
                Seq::new(
                    items@.len(),
                    |i: int|
                        if 0 <= i < items@.len() {
                            items[i].model()
                        } else {
                            Cbor::Other
                        },
                ),
            ),
            CborValue::Table(entries) => Cbor::Table(
                Seq::new(
                    entries@.len(),
                    |i: int|
                        if 0 <= i < entries@.len() {
                            (entries[i].0.model(), entries[i].1.model())
                        } else {
                            (Cbor::Other, Cbor::Other)
                        },
                ),
            ),
            CborValue::Other => Cbor::Other,
        }
    }
}

/// Brings a `cbor4ii::core::Value` into the library's form, variant by
/// variant; the null value, a float, a byte string and a tagged value become
/// `Other`, and so would a variant that the decoder's enum, which is open
/// to additions, came to have. Nothing is claimed of the result here:
/// [`decode_document`] names what decoding followed by this gives.
#[verifier::external_body]
fn lift(value: RawValue) -> CborValue {
    match value {
        RawValue::Integer(i) => CborValue::Integer(i),
        RawValue::Text(s) => CborValue::Text(s),
        RawValue::Bool(b) => CborValue::Bool(b),
        RawValue::Array(items) => CborValue::Array(items.into_iter().map(lift).collect()),
        RawValue::Map(entries) => CborValue::Table(
            entries.into_iter().map(|(k, v)| (lift(k), lift(v))).collect(),
        ),
        RawValue::Null => CborValue::Other,
        RawValue::Float(_) => CborValue::Other,
        RawValue::Bytes(_) => CborValue::Other,
        RawValue::Tag(_, _) => CborValue::Other,
        _ => CborValue::Other,
    }
}

/// Brings a document into the form of `cbor4ii::core::Value`, variant by
/// variant; `Other` becomes the null value. Nothing is claimed of the result
/// here: [`encode_document`] names what this followed by encoding gives.
#[verifier::external_body]
fn lower(document: &CborValue) -> RawValue {
    match document {
        CborValue::Integer(i) => RawValue::Integer(*i),
        CborValue::Text(s) => RawValue::Text(s.clone()),
        CborValue::Bool(b) => RawValue::Bool(*b),
        CborValue::Array(items) => RawValue::Array(items.iter().map(lower).collect()),
        CborValue::Table(entries) => RawValue::Map(
            entries.iter().map(|(k, v)| (lower(k), lower(v))).collect(),
        ),
        CborValue::Other => RawValue::Null,
    }
}

/// Decodes the first item of `bytes` with `cbor4ii::core::Value::decode`, on
/// a `SliceReader`. The decoder reads nothing but the bytes, so what comes
/// back, a document or none where the bytes do not begin with a well-formed
/// item, is named as a function of them. Bytes after the first item are not
/// looked at.
#[verifier::external_body]
pub(crate) fn decode_document(bytes: &[u8]) -> (r: Option<CborValue>)
    ensures
        match r {
            Some(document) => cbor_document(bytes@) == Some(document.model()),
            None => cbor_document(bytes@).is_none(),
        },
{
    let mut reader = cbor4ii::core::utils::SliceReader::new(bytes);
    match cbor4ii::core::dec::Decode::decode(&mut reader) {
        Ok(value) => Some(lift(value)),
        Err(_) => None,
    }
}

/// Encodes `document` with `cbor4ii::core::Value::encode`, into a
/// `BufWriter` over an empty vector. The encoder has no failure of its own:
/// the one error that it hands on is the writer's, which is that memory for
/// the bytes could not be had, and that ends the program as any other
/// failed allocation does. The bytes that are written depend on the
/// document alone and are named as a function of it.
#[verifier::external_body]
pub(crate) fn encode_document(document: &CborValue) -> (r: Vec<u8>)
    ensures
        r@ == cbor_bytes(document.model()),
{
    let mut writer = cbor4ii::core::utils::BufWriter::new(Vec::new());
    match cbor4ii::core::enc::Encode::encode(&lower(document), &mut writer) {
        Ok(()) => writer.into_inner(),
        Err(_) => std::alloc::handle_alloc_error(std::alloc::Layout::new::<u8>()),
    }
}

/// Whether two documents say the same.
pub fn same_document(a: &CborValue, b: &CborValue) -> (r: bool)
    ensures
        r == (a.model() == b.model()),
    decreases a,
{
    match (a, b) {
        (CborValue::Integer(x), CborValue::Integer(y)) => *x == *y,
        (CborValue::Text(x), CborValue::Text(y)) => crate::text::str_equal(x.as_str(), y.as_str()),
        (CborValue::Bool(x), CborValue::Bool(y)) => *x == *y,
        (CborValue::Array(xs), CborValue::Array(ys)) => {
            let ghost left = a.model()->Array_0;
            let ghost right = b.model()->Array_0;
            if xs.len() != ys.len() {
                assert(left.len() != right.len());
                return false;
            }
            let mut i: usize = 0;
            while i < xs.len()
                invariant
                    i <= xs@.len(),
                    xs@.len() == ys@.len(),
                    a == CborValue::Array(*xs),
                    a.model() == Cbor::Array(left),
                    b.model() == Cbor::Array(right),
                    left.len() == xs@.len(),
                    right.len() == ys@.len(),
                    forall|k: int| 0 <= k < xs@.len() ==> #[trigger] left[k] == xs@[k].model(),
                    forall|k: int| 0 <= k < ys@.len() ==> #[trigger] right[k] == ys@[k].model(),
                    forall|k: int| 0 <= k < i ==> #[trigger] left[k] == right[k],
                decreases xs@.len() - i,
            {
                if !same_document(&xs[i], &ys[i]) {
                    assert(left[i as int] != right[i as int]);
                    return false;
                }
                i = i + 1;
            }
            assert(left =~= right);
            true
        },
        (CborValue::Table(xs), CborValue::Table(ys)) => {
            let ghost left = a.model()->Table_0;
            let ghost right = b.model()->Table_0;
            if xs.len() != ys.len() {
                assert(left.len() != right.len());
                return false;
            }
            let mut i: usize = 0;
            while i < xs.len()
                invariant
                    i <= xs@.len(),
                    xs@.len() == ys@.len(),
                    a == CborValue::Table(*xs),
                    a.model() == Cbor::Table(left),
                    b.model() == Cbor::Table(right),
                    left.len() == xs@.len(),
                    right.len() == ys@.len(),
                    forall|k: int|
                        0 <= k < xs@.len() ==> #[trigger] left[k] == (
                            xs@[k].0.model(),
                            xs@[k].1.model(),
                        ),
                    forall|k: int|
                        0 <= k < ys@.len() ==> #[trigger] right[k] == (
                            ys@[k].0.model(),
                            ys@[k].1.model(),
                        ),
                    forall|k: int| 0 <= k < i ==> #[trigger] left[k] == right[k],
                decreases xs@.len() - i,
            {
                if !same_document(&xs[i].0, &ys[i].0) || !same_document(&xs[i].1, &ys[i].1) {
                    assert(left[i as int] != right[i as int]);
                    return false;
                }
                i = i + 1;
            }
            assert(left =~= right);
            true
        },
        (CborValue::Other, CborValue::Other) => true,
        _ => false,
    }
}

} // verus!
