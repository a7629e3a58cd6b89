//! Instance data as the bytes of the instance data file.

use vstd::prelude::*;
use crate::instance::cbor::{cbor_bytes, cbor_document, decode_document, encode_document};
use crate::instance::cbor::{CborValue, same_document};
use crate::instance::data::{InstanceData, InstanceDataOpenError, InstanceDataView};
use crate::instance::format::decode::loaded_from;
use crate::instance::format::encode::instance_document;
use crate::instance::format::laws::lemma_round_trip;

verus! {

/// The bytes that may be handed out as the bytes of `document`, given what
/// the encoder made of it: `encoded` itself where the bytes decode to
/// `document` again, and nothing where they decode to something else or to
/// nothing.
pub fn read_back(document: &CborValue, encoded: Vec<u8>) -> (r: Option<Vec<u8>>)
    ensures
        r == if cbor_document(encoded@) == Some(document.model()) {
            Some(encoded)
        } else {
            None
        },
{
    match decode_document(encoded.as_slice()) {
        Some(back) => if same_document(&back, document) {
            Some(encoded)
        } else {
            None
        },
        None => None,
    }
}

impl InstanceData {
    /// The instance data as the bytes that are kept on disk.
    ///
    /// The bytes are those that the encoder writes for the document of the
    /// data. They are read back before they are handed out, and are handed
    /// out exactly if they decode to the document that was encoded: what is
    /// written of consistent data is loaded as that data again.
    pub fn serialize(&self) -> (r: Option<Vec<u8>>)
        ensures
            r.is_some() <==> cbor_document(cbor_bytes(instance_document(self@))) == Some(
                instance_document(self@),
            ),
            r matches Some(bytes) ==> bytes@ == cbor_bytes(instance_document(self@)) && (self.wf()
                ==> loaded_from(bytes@) == Ok::<InstanceDataView, InstanceDataOpenError>(self@)),
    {
        let document = self.to_value();
        proof {
            if self.wf() {
                lemma_round_trip(self@);
            }
        }
        read_back(&document, encode_document(&document))
    }

    /// Loads instance data from the bytes of an instance data file.
    pub fn from_bytes(bytes: &[u8]) -> (r: Result<InstanceData, InstanceDataOpenError>)
        ensures
            match r {
                Ok(data) => loaded_from(bytes@) == Ok::<InstanceDataView, InstanceDataOpenError>(
                    data@,
                ) && data.wf(),
                Err(e) => loaded_from(bytes@) == Err::<InstanceDataView, InstanceDataOpenError>(e),
            },
    {
        match decode_document(bytes) {
            Some(document) => Self::from_value(&document),
            None => Err(InstanceDataOpenError::Deserialize),
        }
    }
}

} // verus!
