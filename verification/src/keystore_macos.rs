//! The login keychain as a store: what its replies mean.
use crate::keystore;
use crate::keystore::host;
use crate::keystore::host::judge_presence;
use crate::keystore::{KeystoreError, KeystoreErrorView};
use crate::text;
use vstd::prelude::*;
use vstd::string::*;

verus! {

/// The keychain service under which all blobs are kept.
pub const SERVICE: &'static str = "works.rainn.sigil";

/// The keychain has no item that matches.
pub const ERR_SEC_ITEM_NOT_FOUND: i32 = -25300;

/// A failed keychain call: its status code and its text.
#[derive(Debug, Clone, PartialEq, Eq)]
pub struct KeychainFailure {
    pub code: i32,
    pub message: String,
}

/// The login keychain as a store.
pub struct MacKeystore {
    service: String,
}

/// What a keychain read came to: an item that is not there is no error.
pub open spec fn keychain_load(reply: Result<Vec<u8>, KeychainFailure>) -> Result<
    Option<Seq<u8>>,
    KeystoreErrorView,
> {
    match reply {
        Ok(b) => Ok(Some(b@)),
        Err(f) => if f.code == ERR_SEC_ITEM_NOT_FOUND {
            Ok(None)
        } else {
            Err(KeystoreErrorView::Backend(f.message@))
        },
    }
}

/// What a keychain deletion came to: an item that is not there is no error.
pub open spec fn keychain_delete(reply: Result<(), KeychainFailure>) -> Result<
    (),
    KeystoreErrorView,
> {
    match reply {
        Ok(_) => Ok(()),
        Err(f) => if f.code == ERR_SEC_ITEM_NOT_FOUND {
            Ok(())
        } else {
            Err(KeystoreErrorView::Backend(f.message@))
        },
    }
}

impl MacKeystore {
    /// The service that the blobs are kept under.
    pub closed spec fn under(&self) -> Seq<char> {
        self.service@
    }

    /// The store under the project's own service.
    pub fn new() -> (r: MacKeystore)
        ensures
            r.under() == SERVICE@,
    {
        MacKeystore { service: SERVICE.to_owned() }
    }

    /// The service that the blobs are kept under.
    pub fn service(&self) -> (r: &str)
        ensures
            r@ == self.under(),
    {
        self.service.as_str()
    }

    /// Which backend this is.
    pub fn backend(&self) -> (r: &'static str)
        ensures
            r@ == "keychain"@,
    {
        "keychain"
    }

    /// Its presence check raises a live biometric prompt.
    pub fn is_biometric(&self) -> (r: bool)
        ensures
            r,
    {
        true
    }

    /// What a keychain write came to.
    pub fn stored(reply: Result<(), KeychainFailure>) -> (r: Result<(), KeystoreError>)
        ensures
            host::presence_view(r) == match reply {
                Ok(_) => Ok(()),
                Err(f) => Err(KeystoreErrorView::Backend(f.message@)),
            },
    {
        match reply {
            Ok(_) => Ok(()),
            Err(f) => Err(KeystoreError::Backend(f.message)),
        }
    }

    /// What a keychain read came to.
    pub fn loaded(reply: Result<Vec<u8>, KeychainFailure>) -> (r: Result<
        Option<Vec<u8>>,
        KeystoreError,
    >)
        ensures
            keystore::load_view(r) == keychain_load(reply),
    {
        match reply {
            Ok(b) => Ok(Some(b)),
            Err(f) => {
                if f.code == ERR_SEC_ITEM_NOT_FOUND {
                    Ok(None)
                } else {
                    Err(KeystoreError::Backend(f.message))
                }
            },
        }
    }

    /// What a keychain deletion came to.
    pub fn deleted(reply: Result<(), KeychainFailure>) -> (r: Result<(), KeystoreError>)
        ensures
            host::presence_view(r) == keychain_delete(reply),
    {
        match reply {
            Ok(_) => Ok(()),
            Err(f) => {
                if f.code == ERR_SEC_ITEM_NOT_FOUND {
                    Ok(())
                } else {
                    Err(KeystoreError::Backend(f.message))
                }
            },
        }
    }

    /// What the code of its presence prompt means.
    pub fn presence(code: i32) -> (r: Result<(), KeystoreError>)
        ensures
            host::presence_view(r) == host::presence_outcome(code as int),
    {
        judge_presence(code)
    }
}

/// What the keychain holds is what is loaded; an item that is not there is none, for
/// a read as for a deletion, and any other failure is passed on with its text.
pub proof fn an_absent_item_is_no_failure(item: Vec<u8>, f: KeychainFailure)
    ensures
        keychain_load(Ok(item)) == Ok::<Option<Seq<u8>>, KeystoreErrorView>(Some(item@)),
        keychain_delete(Ok(())) is Ok,
        keychain_load(Err(f)) is Ok <==> f.code == -25300,
        keychain_delete(Err(f)) is Ok <==> f.code == -25300,
        keychain_load(Err(f)) matches Ok(found) ==> found is None,
        keychain_load(Err(f)) matches Err(e) ==> e == KeystoreErrorView::Backend(f.message@),
        keychain_delete(Err(f)) matches Err(e) ==> e == KeystoreErrorView::Backend(f.message@),
{
}

} // verus!
