use crate::text::copy_string;
use vstd::prelude::*;

verus! {

/// A verification method of an identity document, as a mathematical value.
pub struct MethodView {
    pub id: Seq<char>,
    pub key: Seq<u8>,
    pub authorized: bool,
}

/// An identity document, as a mathematical value.
pub struct DocumentView {
    pub id: Seq<char>,
    pub methods: Seq<MethodView>,
    pub deactivated: bool,
}

/// A verification method: a key of the identity under its key identifier.
#[derive(Clone, Debug, PartialEq, Eq)]
pub struct VerificationMethod {
    /// The key identifier.
    pub id: String,
    /// The key material.
    pub key: Vec<u8>,
    /// Whether the document puts the key forward for verifying what the
    /// identity asserts.
    pub authorized: bool,
}

/// The document that an identity reference resolves to.
#[derive(Clone, Debug, PartialEq, Eq)]
pub struct IdentityDocument {
    /// The identity that the document describes.
    pub id: String,
    /// Its verification methods, in document order.
    pub methods: Vec<VerificationMethod>,
    /// Whether the identity has been deactivated.
    pub deactivated: bool,
}

/// Why a document offers no key for a key identifier.
#[derive(Clone, Copy, Debug, PartialEq, Eq, Structural)]
pub enum MethodError {
    /// The document holds no method under the key identifier.
    VerificationMethodNotFound,
    /// The method is there but is not put forward for verification.
    MethodNotAuthorized,
}

impl View for VerificationMethod {
    type V = MethodView;

    open spec fn view(&self) -> MethodView {
        MethodView { id: self.id@, key: self.key@, authorized: self.authorized }
    }
}

impl View for IdentityDocument {
    type V = DocumentView;

    open spec fn view(&self) -> DocumentView {
        DocumentView {
            id: self.id@,
            methods: Seq::new(self.methods@.len(), |i: int| self.methods@[i]@),
            deactivated: self.deactivated,
        }
    }
}

/// Whether `i` is the first method of `methods` under the key identifier
/// `key_id`.
pub open spec fn is_first_method(methods: Seq<MethodView>, key_id: Seq<char>, i: int) -> bool {
    &&& 0 <= i < methods.len()
    &&& methods[i].id == key_id
    &&& forall|j: int| 0 <= j < i ==> methods[j].id != key_id
}

/// Whether `methods` holds a method under the key identifier `key_id`.
pub open spec fn has_method(methods: Seq<MethodView>, key_id: Seq<char>) -> bool {
    exists|i: int| 0 <= i < methods.len() && methods[i].id == key_id
}

/// A copy of a byte string.
fn copy_bytes(bytes: &Vec<u8>) -> (out: Vec<u8>)
    ensures
        out@ == bytes@,
{
    let mut out: Vec<u8> = Vec::new();
    let mut i: usize = 0;
    while i < bytes.len()
        invariant
            i <= bytes.len(),
            out@ == bytes@.take(i as int),
        decreases bytes.len() - i,
    {
        out.push(bytes[i]);
        assert(out@ =~= bytes@.take(i + 1));
        i += 1;
    }
    assert(bytes@.take(bytes.len() as int) =~= bytes@);
    out
}

impl VerificationMethod {
    /// A copy of this method.
    pub fn duplicate(&self) -> (out: VerificationMethod)
        ensures
            out@ == self@,
    {
        VerificationMethod {
            id: copy_string(&self.id),
            key: copy_bytes(&self.key),
            authorized: self.authorized,
        }
    }
}

impl IdentityDocument {
    /// A copy of this document.
    pub fn duplicate(&self) -> (out: IdentityDocument)
        ensures
            out@ == self@,
    {
        let mut methods: Vec<VerificationMethod> = Vec::new();
        let mut i: usize = 0;
        while i < self.methods.len()
            invariant
                i <= self.methods.len(),
                methods.len() == i,
                forall|j: int| 0 <= j < i ==> methods@[j]@ == self.methods@[j]@,
            decreases self.methods.len() - i,
        {
            methods.push(self.methods[i].duplicate());
            i += 1;
        }
        let out = IdentityDocument {
            id: copy_string(&self.id),
            methods,
            deactivated: self.deactivated,
        };
        assert(out@.methods =~= self@.methods);
        out
    }

    /// The verification method under the key identifier `key_id`: the first
    /// one, where several bear it.
    ///
    /// Fails with `VerificationMethodNotFound` where the document holds none,
    /// and with `MethodNotAuthorized` where the method is not put forward for
    /// verification.
    pub fn verification_method(&self, key_id: &str) -> (out: Result<
        &VerificationMethod,
        MethodError,
    >)
        ensures
            !has_method(self@.methods, key_id@) ==> out == Err::<&VerificationMethod, MethodError>(
                MethodError::VerificationMethodNotFound,
            ),
            forall|i: int|
                is_first_method(self@.methods, key_id@, i) ==> if self@.methods[i].authorized {
                    out == Ok::<&VerificationMethod, MethodError>(&self.methods@[i])
                } else {
                    out == Err::<&VerificationMethod, MethodError>(MethodError::MethodNotAuthorized)
                },
    {
        let wanted = String::from_str(key_id);
        let mut i: usize = 0;
        while i < self.methods.len()
            invariant
                i <= self.methods.len(),
                wanted@ == key_id@,
                forall|j: int| 0 <= j < i ==> self@.methods[j].id != key_id@,
            decreases self.methods.len() - i,
        {
            if self.methods[i].id == wanted {
                assert(is_first_method(self@.methods, key_id@, i as int));
                assert forall|k: int| is_first_method(self@.methods, key_id@, k) implies k == i by {
                    if k < i {
                        assert(self@.methods[k].id != key_id@);
                    }
                }
                if self.methods[i].authorized {
                    return Ok(&self.methods[i]);
                } else {
                    return Err(MethodError::MethodNotAuthorized);
                }
            }
            i += 1;
        }
        Err(MethodError::VerificationMethodNotFound)
    }
}

} // verus!
