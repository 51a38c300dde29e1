//! Object identifiers (RFC 8474): stable ids for mailboxes, messages and
//! threads.

use vstd::prelude::*;
use vstd::std_specs::convert::TryFromSpecImpl;
use vstd::string::StringSliceAdditionalSpecFns;

pub use crate::chars::is_objectid_char;
use crate::chars::{all_in, scan, scan_end, ByteClass};
use crate::rule::{read_view, Rule};
use crate::strings::{check_bytes, spec_check_bytes, ValidationError};

verus! {

/// An object identifier: `objectid = 1*255(ALPHA / DIGIT / "_" / "-")`.
/// Case matters (RFC 8474 Section 8.1).
#[derive(Debug, PartialEq, Eq, Hash)]
pub struct ObjectId(Vec<u8>);

/// Whether bytes are an object identifier, and if not, why.
pub open spec fn spec_objectid_check(b: Seq<u8>) -> Result<(), ValidationError> {
    if b.len() == 0 {
        Err(ValidationError::Empty)
    } else if b.len() > 255 {
        Err(ValidationError::Invalid)
    } else {
        spec_check_bytes(b, ByteClass::ObjectId, false)
    }
}

impl ObjectId {
    #[verifier::type_invariant]
    spec fn inv(self) -> bool {
        spec_objectid_check(self.0@) is Ok
    }

    /// Whether a value is an object identifier.
    pub fn validate(value: &[u8]) -> (r: Result<(), ValidationError>)
        ensures
            r == spec_objectid_check(value@),
    {
        if value.len() == 0 {
            return Err(ValidationError::Empty);
        }
        if value.len() > 255 {
            return Err(ValidationError::Invalid);
        }
        check_bytes(value, ByteClass::ObjectId, false)
    }

    /// The identifier.
    pub fn inner(&self) -> (r: &[u8])
        ensures
            r@ == self.deep_view(),
            spec_objectid_check(r@) is Ok,
    {
        proof {
            use_type_invariant(self);
        }
        self.0.as_slice()
    }

    /// Constructs an identifier the caller knows to be valid.
    pub fn unvalidated(inner: &[u8]) -> (r: ObjectId)
        requires
            spec_objectid_check(inner@) is Ok,
        ensures
            r.deep_view() == inner@,
    {
        ObjectId(crate::chars::copy_of(inner))
    }

    /// The identifier of these bytes.
    pub fn try_from_bytes(value: &[u8]) -> (r: Result<ObjectId, ValidationError>)
        ensures
            r matches Ok(o) ==> o.deep_view() == value@,
            r is Ok <==> spec_objectid_check(value@) is Ok,
            r matches Err(e) ==> spec_objectid_check(value@) == Err::<(), ValidationError>(e),
    {
        match ObjectId::validate(value) {
            Ok(()) => Ok(ObjectId(crate::chars::copy_of(value))),
            Err(e) => Err(e),
        }
    }
}

impl DeepView for ObjectId {
    type V = Seq<u8>;

    closed spec fn deep_view(&self) -> Seq<u8> {
        self.0@
    }
}

impl Clone for ObjectId {
    fn clone(&self) -> (r: Self)
        ensures
            r.deep_view() == self.deep_view(),
    {
        proof {
            use_type_invariant(self);
        }
        ObjectId(crate::chars::copy_of(self.0.as_slice()))
    }
}

impl<'a> TryFrom<&'a str> for ObjectId {
    type Error = ValidationError;

    fn try_from(value: &'a str) -> (r: Result<ObjectId, ValidationError>)
        ensures
            r matches Ok(o) ==> o.deep_view() == value.spec_bytes(),
            r is Ok <==> spec_objectid_check(value.spec_bytes()) is Ok,
            r matches Err(e) ==> spec_objectid_check(value.spec_bytes()) == Err::<(), ValidationError>(e),
    {
        ObjectId::try_from_bytes(value.as_bytes())
    }
}

impl TryFrom<String> for ObjectId {
    type Error = ValidationError;

    fn try_from(value: String) -> (r: Result<ObjectId, ValidationError>)
        ensures
            r matches Ok(o) ==> o.deep_view() == vstd::utf8::encode_utf8(value@),
            r is Ok <==> spec_objectid_check(vstd::utf8::encode_utf8(value@)) is Ok,
            r matches Err(e) ==> spec_objectid_check(vstd::utf8::encode_utf8(value@)) == Err::<(), ValidationError>(e),
    {
        ObjectId::try_from_bytes(value.as_str().as_bytes())
    }
}

impl TryFromSpecImpl<String> for ObjectId {
    open spec fn obeys_try_from_spec() -> bool {
        false
    }

    open spec fn try_from_spec(v: String) -> Result<ObjectId, ValidationError> {
        Err(ValidationError::Invalid)
    }
}

impl<'a> TryFromSpecImpl<&'a str> for ObjectId {
    open spec fn obeys_try_from_spec() -> bool {
        false
    }

    open spec fn try_from_spec(v: &'a str) -> Result<ObjectId, ValidationError> {
        Err(ValidationError::Invalid)
    }
}

/// `objectid = 1*255(ALPHA / DIGIT / "_" / "-")`: up to 255 bytes are
/// taken; fewer only where the run ends before the input does.
pub open spec fn spec_objectid(s: Seq<u8>, i: int) -> Option<(Seq<u8>, int)> {
    let e = scan_end(s, i, ByteClass::ObjectId);
    if e < s.len() {
        if i < e {
            let k = if e - i <= 255 { e } else { i + 255 };
            Some((s.subrange(i, k), k))
        } else {
            None
        }
    } else if s.len() - i >= 255 {
        Some((s.subrange(i, i + 255), i + 255))
    } else {
        None
    }
}

/// Reads an `objectid` at `i`.
pub fn read_objectid(s: &[u8], i: usize) -> (r: Option<(ObjectId, usize)>)
    requires
        i <= s@.len(),
    ensures
        read_view(r) == spec_objectid(s@, i as int),
        r matches Some((_, j)) ==> i < j <= s@.len(),
{
    let e = scan(s, i, ByteClass::ObjectId);
    proof {
        crate::chars::lemma_scan_end(s@, i as int, ByteClass::ObjectId);
    }
    let k = if e < s.len() {
        if i < e {
            if e - i <= 255 { e } else { i + 255 }
        } else {
            return None;
        }
    } else if s.len() - i >= 255 {
        i + 255
    } else {
        return None;
    };
    let b = &s[i..k];
    proof {
        assert forall|m: int| 0 <= m < b@.len() implies ByteClass::ObjectId.spec_has(#[trigger] b@[m]) by {
            assert(b@[m] == s@.subrange(i as int, e as int)[m]);
        }
    }
    Some((ObjectId(crate::chars::copy_of(b)), k))
}

/// The rule `objectid`.
pub struct ObjectIdRule;

impl Rule for ObjectIdRule {
    type Out = ObjectId;

    open spec fn spec_read(&self, s: Seq<u8>, i: int) -> Option<(Seq<u8>, int)> {
        spec_objectid(s, i)
    }

    fn read(&self, s: &[u8], i: usize) -> (r: Option<(ObjectId, usize)>) {
        read_objectid(s, i)
    }
}

/// An object identifier written at `i`, and followed by a byte that no
/// identifier holds, reads back.
pub proof fn lemma_objectid_round_trip(o: Seq<u8>, s: Seq<u8>, i: int)
    requires
        spec_objectid_check(o) is Ok,
        0 <= i,
        i + o.len() < s.len(),
        s.subrange(i, i + o.len()) == o,
        !ByteClass::ObjectId.spec_has(s[i + o.len()]),
    ensures
        spec_objectid(s, i) == Some((o, i + o.len())),
{
    assert(all_in(o, ByteClass::ObjectId));
    assert forall|k: int| i <= k < i + o.len() implies ByteClass::ObjectId.spec_has(#[trigger] s[k]) by {
        assert(s[k] == o[k - i]);
    }
    crate::chars::lemma_scan_end_of_run(s, i, i + o.len(), ByteClass::ObjectId);
}

} // verus!
